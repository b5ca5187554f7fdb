use yofi::icon::{IconFormat, IconInner, Loaded};
use yofi::locale::Locale;
use yofi::usage_cache::Usage;

fn locale(lang: &str, country: Option<&str>, modifier: Option<&str>) -> Locale {
    Locale {
        lang: Some(lang.to_string()),
        country: country.map(String::from),
        modifier: modifier.map(String::from),
    }
}

#[test]
fn regex_doesnt_match_empty() {
    assert!(Locale::parse("").is_none());
}

#[test]
fn locale_names() {
    assert_eq!(Locale::parse("qw"), Some(locale("qw", None, None)));
    assert_eq!(Locale::parse("qw_ER"), Some(locale("qw", Some("ER"), None)));
    assert_eq!(Locale::parse("qw_ER.ty"), Some(locale("qw", Some("ER"), None)));
    assert_eq!(Locale::parse("qw_ER.ty@ui"), Some(locale("qw", Some("ER"), Some("ui"))));
    assert_eq!(Locale::parse("qw@ui"), Some(locale("qw", None, Some("ui"))));
    assert_eq!(Locale::parse("C.UTF-8"), Some(locale("C", None, None)));
    assert!(Locale::parse("en_").is_none());
    assert!(Locale::parse("en-US").is_none());
    assert!(Locale::parse("_US").is_none());
    assert!(Locale::parse("en@a\nb").is_none());
}

#[test]
fn locale_keys() {
    let keys = locale("qw", Some("ER"), Some("ui")).keys();
    assert_eq!(keys, vec!["qw_ER@ui", "qw_ER", "qw@ui", "qw"]);
    assert_eq!(locale("qw", None, Some("ui")).keys(), vec!["qw@ui", "qw"]);
    assert_eq!(locale("qw", Some("ER"), None).keys(), vec!["qw_ER", "qw"]);
    assert!(Locale::none().keys().is_empty());
}

#[test]
fn cache_text_parsing() {
    let u = Usage::from_cache_text("3 firefox.desktop\n\n12 vim extra words\r\n1 firefox.desktop\n");
    assert_eq!(u.entry_count("firefox.desktop"), 1);
    assert_eq!(u.entry_count("vim"), 12);
    assert_eq!(u.entry_count("extra"), 0);
    let plus = Usage::from_cache_text("+7 a");
    assert_eq!(plus.entry_count("a"), 7);
    let bad = Usage::from_cache_text("3 a\nx b\n");
    assert_eq!(bad.entry_count("a"), 0);
    let no_entry = Usage::from_cache_text("5\n");
    assert_eq!(no_entry.entry_count(""), 0);
    let too_big = Usage::from_cache_text("99999999999999999999999 a\n");
    assert_eq!(too_big.entry_count("a"), 0);
}

#[test]
fn cache_text_writing() {
    let mut u = Usage::new();
    u.increment_entry_usage("b".to_string());
    u.increment_entry_usage("a".to_string());
    u.increment_entry_usage("b".to_string());
    assert_eq!(u.to_cache_text(), "2 b\n1 a\n");
    let back = Usage::from_cache_text(&u.to_cache_text());
    assert_eq!(back.entry_count("b"), 2);
    assert_eq!(back.entry_count("a"), 1);
    assert_eq!(Usage::new().to_cache_text(), "");
}

#[test]
fn icon_formats() {
    assert_eq!(Loaded::format("/usr/share/icons/a.png"), Some(IconFormat::Png));
    assert_eq!(Loaded::format("b.svg"), Some(IconFormat::Svg));
    assert_eq!(Loaded::format("/x.y/c.xpm"), None);
    assert_eq!(Loaded::format("/icons/.png"), None);
    assert_eq!(Loaded::format("/icons.png/noext"), None);
    assert_eq!(Loaded::format(""), None);
}

#[test]
fn icon_pixels() {
    assert_eq!(Loaded::from_rgb(&vec![1, 2, 3, 4, 5, 6]), Some(vec![0xff010203, 0xff040506]));
    assert_eq!(Loaded::from_rgb(&vec![1, 2]), None);
    assert_eq!(Loaded::from_gray_alpha(&vec![0x10, 0x80]), Some(vec![0x80101010]));
    assert_eq!(Loaded::from_gray_alpha(&vec![1]), None);
    assert_eq!(Loaded::from_gray(&vec![0x20]), vec![0xff202020]);
}

#[test]
fn icon_loading_states() {
    let mut icon = IconInner::new("/a.png".to_string());
    assert_eq!(icon.pending_path().map(String::as_str), Some("/a.png"));
    assert!(icon.loaded().is_none());
    let l = Loaded { width: 1, height: 1, data: vec![0xffffffff] };
    assert_eq!(icon.load(Some(l.clone())), Some(()));
    assert_eq!(icon.loaded(), Some(&l));
    assert_eq!(icon.load(None), Some(()));
    let mut bad = IconInner::new("/b.svg".to_string());
    assert_eq!(bad.load(None), None);
    assert_eq!(bad, IconInner::Failed);
    assert_eq!(bad.load(Some(l)), None);
    assert_eq!(bad, IconInner::Failed);
}
