use yofi::desktop::{icon_lookups, name_order, DesktopAttr, DesktopFile, DesktopSection, Entry, ExecEntry};

fn attr(key: &str, param: Option<&str>, value: &str) -> DesktopAttr {
    DesktopAttr { key: key.to_string(), param: param.map(String::from), value: value.to_string() }
}

fn section(title: &str, attrs: Vec<DesktopAttr>) -> DesktopSection {
    DesktopSection { title: title.to_string(), attrs }
}

fn firefox() -> DesktopFile {
    DesktopFile {
        sections: vec![
            section(
                "Desktop Entry",
                vec![
                    attr("Name", None, "Firefox"),
                    attr("Name", Some("de"), "Feuerfuchs"),
                    attr("Exec", None, "firefox %u"),
                    attr("Icon", None, "firefox"),
                    attr("Keywords", None, "web;browser;"),
                    attr("Terminal", None, "false"),
                ],
            ),
            section("Desktop Action new-window", vec![attr("Name", None, "New Window"), attr("Exec", None, "firefox --new-window")]),
            section("Desktop Action broken", vec![attr("Name", None, "No Exec")]),
            section("Other", vec![attr("Name", None, "x"), attr("Exec", None, "y")]),
        ],
    }
}

#[test]
fn entry_from_desktop_file() {
    let e = Entry::from_desktop_file(&firefox(), &vec![], "firefox.desktop".to_string(), "/a/firefox.desktop".to_string()).unwrap();
    assert_eq!(e.entry, ExecEntry { name: "Firefox".to_string(), command: "firefox %u".to_string(), icon: Some("firefox".to_string()) });
    assert_eq!(e.actions, vec![ExecEntry { name: "New Window".to_string(), command: "firefox --new-window".to_string(), icon: Some("firefox".to_string()) }]);
    assert_eq!(e.name_with_keywords, "Firefoxweb;browser;");
    assert!(!e.is_terminal);
    assert_eq!(e.desktop_fname, "firefox.desktop");
    assert_eq!(e.subname(1).map(String::as_str), Some("New Window"));
    assert_eq!(e.subname(0), None);
    assert_eq!(e.icon(1).map(String::as_str), Some("firefox"));
}

#[test]
fn entry_uses_locale_keys_in_order() {
    let keys = vec!["de_DE".to_string(), "de".to_string()];
    let e = Entry::from_desktop_file(&firefox(), &keys, "f".to_string(), "p".to_string()).unwrap();
    assert_eq!(e.entry.name, "Feuerfuchs");
}

#[test]
fn hidden_or_incomplete_entries_are_skipped() {
    let mut hidden = firefox();
    hidden.sections[0].attrs.push(attr("NoDisplay", None, "true"));
    assert!(Entry::from_desktop_file(&hidden, &vec![], "f".to_string(), "p".to_string()).is_none());
    let no_exec = DesktopFile { sections: vec![section("Desktop Entry", vec![attr("Name", None, "A")])] };
    assert!(Entry::from_desktop_file(&no_exec, &vec![], "f".to_string(), "p".to_string()).is_none());
    let no_main = DesktopFile { sections: vec![section("Other", vec![attr("Name", None, "A"), attr("Exec", None, "a")])] };
    assert!(Entry::from_desktop_file(&no_main, &vec![], "f".to_string(), "p".to_string()).is_none());
    let term = DesktopFile {
        sections: vec![section("Desktop Entry", vec![attr("Name", None, "Top"), attr("Exec", None, "htop"), attr("Terminal", None, "true")])],
    };
    let t = Entry::from_desktop_file(&term, &vec![], "f".to_string(), "p".to_string()).unwrap();
    assert!(t.is_terminal);
    assert_eq!(t.name_with_keywords, "Top");
    assert!(t.actions.is_empty());
}

#[test]
fn icon_lookup_order() {
    let got: Vec<(String, u16)> = icon_lookups("firefox", 16);
    let want: Vec<(String, u16)> = vec![
        ("firefox".to_string(), 16),
        ("firefox".to_string(), 24),
        ("firefox".to_string(), 32),
        ("firefox".to_string(), 512),
        ("firefox".to_string(), 8),
        ("firefox-symbolic".to_string(), 16),
    ];
    assert_eq!(got, want);
    assert_eq!(icon_lookups("x", 4).len(), 5);
    assert!(icon_lookups("/usr/share/x.png", 16).is_empty());
}

#[test]
fn entries_by_name_first_kept() {
    let mk = |name: &str, fname: &str| {
        let file = DesktopFile { sections: vec![section("Desktop Entry", vec![attr("Name", None, name), attr("Exec", None, "x")])] };
        Entry::from_desktop_file(&file, &vec![], fname.to_string(), "p".to_string()).unwrap()
    };
    let entries = vec![mk("b", "1"), mk("a", "2"), mk("b", "3"), mk("C", "4")];
    assert_eq!(name_order(&entries), vec![3, 1, 0]);
}
