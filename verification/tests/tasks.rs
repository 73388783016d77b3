use nox::task::{find_task, interpolate, list_tasks, parse_tasks, unquote, words};

#[test]
fn parses_dependencies_repeated_runs_and_multiline_commands() {
    let tasks = parse_tasks(
        "tasks:\n  build:\n    run: cargo build\n  app:\n    @nox build\n    run: first\n    run: |\n      second\n        third\n",
    )
    .expect("tasks should parse");
    let app = find_task(&tasks, "app").expect("app task");
    assert_eq!(app.dependencies, ["build"]);
    assert_eq!(app.commands, ["first", "second\nthird"]);
}

#[test]
fn lists_sorted_yaml_tasks() {
    assert_eq!(
        list_tasks("tasks:\n  test:\n    run: cargo test\n  build:\n    run: cargo build\n").expect("tasks should list"),
        ["build", "test"]
    );
}

#[test]
fn unquotes_and_splits_commands() {
    assert_eq!(unquote("\"cargo test\""), "cargo test");
    assert_eq!(unquote("'x'"), "x");
    assert_eq!(unquote("plain"), "plain");
    assert_eq!(words("  cargo   build --release "), ["cargo", "build", "--release"]);
}

#[test]
fn interpolates_the_version_and_build_directory() {
    let settings = vec![
        ("mode".to_string(), nox::domain::model::Setting::String("fast".to_string())),
        ("flags".to_string(), nox::domain::model::Setting::List(vec!["-x".to_string()])),
    ];
    let command = interpolate("echo {{version}} in {{build_dir}} {{mode}} {{flags}}", "1.2.3", &settings, "build");
    assert_eq!(command, "echo 1.2.3 in build fast {{flags}}");
}

#[test]
fn generated_noxfile_holds_its_four_tasks() {
    let text = nox::init::templates::noxfile(nox::init::language::Language::Rust);
    let tasks = parse_tasks(&text).expect("generated noxfile should parse");
    let names: Vec<&str> = tasks.iter().map(|(name, _)| name.as_str()).collect();
    assert_eq!(names, vec!["format", "check", "build", "test"]);
    let build = &tasks[2].1;
    assert_eq!(build.dependencies, vec!["check".to_string()]);
    assert_eq!(build.commands, vec!["nox build".to_string()]);
}
