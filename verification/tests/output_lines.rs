use nox::domain::output::{action, colorize, configured, help, key_value, list_item, path_value, success, version, warning};

#[test]
fn plain_lines_without_color() {
    assert_eq!(action("built", "app", false), "built app");
    assert_eq!(configured("demo", Some("1.0.0"), "build", false), "configured demo 1.0.0 in build");
    assert_eq!(configured("demo", None, "build", false), "configured demo in build");
    assert_eq!(list_item("app", "executable", false), "app: executable");
    assert_eq!(key_value("compiler", "cc", false), "compiler: cc");
    assert_eq!(path_value("root", "/p", false), "root: /p");
    assert_eq!(version("nox", "1.2.3", false), "nox 1.2.3");
    assert_eq!(success("done", false), "done");
    assert_eq!(warning("careful", false), "careful");
}

#[test]
fn colored_lines_wrap_in_escapes() {
    assert_eq!(colorize("\x1b[32m", "ok", true), "\x1b[32mok\x1b[0m");
    assert_eq!(action("built", "app", true), "\x1b[1m\x1b[32mbuilt\x1b[0m \x1b[36mapp\x1b[0m");
}

#[test]
fn help_text_lines() {
    let lines = help("The Nox Build System\n\nUsage: nox run\nCommands:\n  x", false);
    assert_eq!(lines, ["The Nox Build System", "", "Usage: nox run", "Commands:", "  x"]);
    let colored = help("Usage: nox run", true);
    assert_eq!(colored, ["\x1b[1m\x1b[33mUsage:\x1b[0m nox run"]);
}
