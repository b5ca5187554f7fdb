use yofi::bins::Binary;
use yofi::desktop::{Entry as DesktopEntry, ExecEntry};
use yofi::exec::{command, Command, ExecError};
use yofi::input_parser::{parse, InputValue};
use yofi::mode::{usage_order, Action, EvalInfo, Mode};
use yofi::usage_cache::Usage;

fn strings(v: &[&str]) -> Vec<String> {
    v.iter().map(|s| s.to_string()).collect()
}

fn app(name: &str, exec: &str, fname: &str, terminal: bool) -> DesktopEntry {
    DesktopEntry {
        entry: ExecEntry { name: name.to_string(), command: exec.to_string(), icon: Some(format!("/icons/{name}.png")) },
        actions: vec![ExecEntry { name: "New Window".to_string(), command: format!("{exec} --new-window"), icon: None }],
        desktop_fname: fname.to_string(),
        path: format!("/usr/share/applications/{fname}"),
        name_with_keywords: format!("{name}Browser"),
        is_terminal: terminal,
    }
}

#[test]
fn usage_order_is_stable() {
    assert_eq!(usage_order(&vec![1, 3, 1, 3, 0]), vec![1, 3, 0, 2, 4]);
    assert_eq!(usage_order(&vec![]), Vec::<usize>::new());
}

#[test]
fn usage_counts() {
    let mut u = Usage::new();
    assert_eq!(u.entry_count("a"), 0);
    u.increment_entry_usage("a".to_string());
    u.increment_entry_usage("a".to_string());
    u.increment_entry_usage("b".to_string());
    assert_eq!(u.entry_count("a"), 2);
    assert_eq!(u.entry_count("b"), 1);
    assert_eq!(u.entry_count("c"), 0);
}

#[test]
fn apps_ordered_by_usage_and_run() {
    let mut usage = Usage::new();
    usage.increment_entry_usage("b.desktop".to_string());
    let entries = vec![
        app("Alpha", "alpha %U", "a.desktop", false),
        app("Beta", "beta --x \"y z\"", "b.desktop", false),
        app("Top", "htop", "t.desktop", true),
    ];
    let mut mode = Mode::apps(entries, strings(&["foot", "-e"]), usage);
    assert_eq!(mode.entries_len(), 3);
    assert_eq!(mode.text_entries(), &strings(&["BetaBrowser", "AlphaBrowser", "TopBrowser"]));
    assert_eq!(mode.subentries_len(0), 1);
    assert_eq!(mode.subentries_len(7), 0);
    let e = mode.entry(1, 1);
    assert_eq!(e.name, "Alpha");
    assert_eq!(e.subname.as_deref(), Some("New Window"));
    assert_eq!(e.icon.as_deref(), Some("/icons/Alpha.png"));

    let info = EvalInfo { index: Some(1), subindex: 0, input_value: parse("alp!!--flag") };
    let got = mode.eval(&info);
    assert_eq!(
        got,
        Ok(Action::Run(Command { argv: strings(&["alpha", "--flag"]), env_vars: None, working_dir: None }))
    );
    let info = EvalInfo { index: Some(0), subindex: 0, input_value: parse("") };
    assert_eq!(
        mode.eval(&info),
        Ok(Action::Run(Command { argv: strings(&["beta", "--x", "y z"]), env_vars: None, working_dir: None }))
    );
    let info = EvalInfo { index: Some(2), subindex: 1, input_value: parse("t!!-d 5#A=1 B=2~/tmp") };
    assert_eq!(
        mode.eval(&info),
        Ok(Action::Run(Command {
            argv: strings(&["foot", "-e", "htop --new-window -d 5"]),
            env_vars: Some(strings(&["A=1", "B=2"])),
            working_dir: Some("/tmp".to_string()),
        }))
    );
    let info = EvalInfo { index: Some(0), subindex: 2, input_value: parse("") };
    assert_eq!(mode.eval(&info), Err(ExecError::NoSuchAction));
    match &mode {
        Mode::Apps(m) => {
            assert_eq!(m.usage().entry_count("a.desktop"), 1);
            assert_eq!(m.usage().entry_count("b.desktop"), 2);
            assert_eq!(m.usage().entry_count("t.desktop"), 1);
        }
        _ => panic!("apps mode expected"),
    }
}

#[test]
fn apps_invalid_command_line() {
    let entries = vec![app("Bad", "bad \"unterminated", "bad.desktop", false)];
    let mut mode = Mode::apps(entries, vec![], Usage::new());
    let info = EvalInfo { index: Some(0), subindex: 0, input_value: parse("") };
    assert_eq!(mode.eval(&info), Err(ExecError::InvalidCommand));
}

#[test]
fn bins_ordered_deduplicated_and_named() {
    let mut usage = Usage::new();
    usage.increment_entry_usage("/usr/bin/zsh".to_string());
    let bins = vec![
        Binary { path: "/usr/bin/vim".to_string(), fname: "vim".to_string() },
        Binary { path: "/bin/vim".to_string(), fname: "vim".to_string() },
        Binary { path: "/usr/bin/zsh".to_string(), fname: "zsh".to_string() },
        Binary { path: "/usr/bin/vim".to_string(), fname: "vim".to_string() },
        Binary { path: "/usr/bin/ls".to_string(), fname: "ls".to_string() },
    ];
    let mut mode = Mode::bins(bins, vec![], usage);
    assert_eq!(mode.entries_len(), 4);
    assert_eq!(mode.text_entries(), &strings(&["zsh", "vim", "ls", "vim"]));
    let names: Vec<String> = (0..4).map(|i| mode.entry(i, 0).name).collect();
    assert_eq!(names, strings(&["zsh", "vim (/bin/vim)", "ls", "vim (/usr/bin/vim)"]));

    let info = EvalInfo { index: Some(2), subindex: 0, input_value: parse("l") };
    assert_eq!(
        mode.eval(&info),
        Ok(Action::Run(Command { argv: strings(&["/usr/bin/ls"]), env_vars: None, working_dir: None }))
    );
    let info = EvalInfo { index: None, subindex: 0, input_value: parse("mytool!!-v") };
    assert_eq!(
        mode.eval(&info),
        Ok(Action::Run(Command { argv: strings(&["mytool -v"]), env_vars: None, working_dir: None }))
    );
}

#[test]
fn command_building() {
    let empty = InputValue::empty();
    assert_eq!(command(None, vec![], &empty), Err(ExecError::EmptyCommand));
    assert_eq!(
        command(None, strings(&["a"]), &parse("x!!\"open")),
        Err(ExecError::InvalidArguments)
    );
    assert_eq!(command(None, strings(&["a"]), &parse("x#'open")), Err(ExecError::InvalidEnvs));
    assert_eq!(command(None, strings(&["a\0b"]), &empty), Err(ExecError::NulByte));
    assert_eq!(
        command(Some(strings(&["term"])), strings(&["prog", "arg"]), &parse("p!!x y")),
        Ok(Command { argv: strings(&["term", "prog arg x y"]), env_vars: None, working_dir: None })
    );
    assert_eq!(
        command(None, strings(&["prog"]), &parse("p!!x 'y z'#K=v")),
        Ok(Command { argv: strings(&["prog", "x", "y z"]), env_vars: Some(strings(&["K=v"])), working_dir: None })
    );
}
