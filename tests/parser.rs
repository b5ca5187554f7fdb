use yofi::input_parser::{parse, InputValue};

fn expect(source: &str, search: &str, args: Option<&str>, env: Option<&str>, dir: Option<&str>) {
    let v = parse(source);
    assert_eq!(
        v,
        InputValue {
            source: source.to_string(),
            search_string: search.to_string(),
            args: args.map(String::from),
            env_vars: env.map(String::from),
            working_dir: dir.map(String::from),
        }
    );
}

#[test]
fn parse_empty_string() {
    let e = InputValue::empty();
    assert_eq!(parse(""), e);
}

#[test]
fn parse_search_string() {
    expect("qwdqwd asd asd", "qwdqwd asd asd", None, None, None);
}

#[test]
fn parse_args_then_env() {
    expect("qwdqwd!!asd#dsa", "qwdqwd", Some("asd"), Some("dsa"), None);
}

#[test]
fn parse_env_then_args() {
    expect("qwdqwd#dsa!!asd", "qwdqwd", Some("asd"), Some("dsa"), None);
}

#[test]
fn parse_dir_env_args() {
    expect("qwdqwd~zx,c#qwe !!asd", "qwdqwd", Some("asd"), Some("qwe "), Some("zx,c"));
}

#[test]
fn parse_all_but_search_string() {
    expect("#qwe~zx,c!!asd", "", Some("asd"), Some("qwe"), Some("zx,c"));
}

#[test]
fn parse_with_all_params() {
    expect(
        "ffx!!--new-instance#MOZ_ENABLE_WAYLAND=1~/run/user/1000",
        "ffx",
        Some("--new-instance"),
        Some("MOZ_ENABLE_WAYLAND=1"),
        Some("/run/user/1000"),
    );
}

#[test]
fn parse_single_bang_and_repeats() {
    expect("a!b", "a!b", None, None, None);
    expect("a!!x!!y", "a", Some("y"), None, None);
    expect("a!!", "a", Some(""), None, None);
}
