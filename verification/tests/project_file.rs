use nox::domain::error::Error;
use nox::domain::graph::{order, validate};
use nox::domain::model::{Setting, TargetKind, TargetLanguage};
use nox::project::parser::{next_request, parse, parse_projects, Request, Resolver};

fn parse_text(text: &str) -> Result<nox::domain::model::Project, Error> {
    parse(text, ".", &Resolver::empty())
}

fn env_value<'a>(env: &'a [(String, String)], name: &str) -> Option<&'a String> {
    env.iter().find(|(key, _)| key == name).map(|(_, value)| value)
}

#[test]
fn parses_cxx_executable_target() {
    let project = parse_text(
        r#"
            project "example" {
                cxx_executable "app" {
                    sources = ["main.cpp"]
                }
            }
        "#,
    )
    .expect("cxx_executable should parse");

    assert_eq!(
        project.targets[0].kind,
        TargetKind::Executable { language: Some(TargetLanguage::Cpp) }
    );
}

#[test]
fn parses_cpp_executable_target() {
    let project = parse_text("project \"cxx\" {\n    executable.cpp \"app\" {\n        sources = [\"main.cpp\"]\n    }\n}\n")
        .expect("executable.cpp fixture should parse");

    assert_eq!(
        project.targets[0].kind,
        TargetKind::Executable { language: Some(TargetLanguage::Cpp) }
    );
    assert_eq!(project.targets[0].sources.len(), 1);
}

#[test]
fn parses_rust_qualified_executable_target() {
    let project = parse_text("project \"nox\" { executable.rust \"nox\" { sources = [\"src/main.rs\"] } }")
        .expect("executable.rust fixture should parse");

    assert_eq!(
        project.targets[0].kind,
        TargetKind::Executable { language: Some(TargetLanguage::Rust) }
    );
}

#[test]
fn parses_multiple_projects() {
    let projects = parse_projects(
        "project \"first\" { executable.rust \"one\" { sources = [\"one.rs\"] } } project \"second\" { executable.rust \"two\" { sources = [\"two.rs\"] } }",
        ".",
        &Resolver::empty(),
    )
    .expect("multiple projects should parse");

    assert_eq!(
        projects.iter().map(|project| project.name.as_str()).collect::<Vec<_>>(),
        ["first", "second"]
    );
}

#[test]
fn parses_project_metadata_fields() {
    let project = parse_text(
        "project \"nox\" { version = \"1.2.3\" description = \"demo\" repository = \"https://example.com/repo\" website = \"https://example.com\" authors = [\"alice\", \"bob\"] maintainers = [\"carol <carol@example.com>\"] executable.rust \"app\" { sources = [\"src/main.rs\"] } }",
    )
    .expect("project metadata should parse");

    assert_eq!(project.version.as_deref(), Some("1.2.3"));
    assert_eq!(project.repository.as_deref(), Some("https://example.com/repo"));
    assert_eq!(project.website.as_deref(), Some("https://example.com"));
    assert_eq!(project.authors, vec!["alice", "bob"]);
    assert_eq!(project.maintainers, vec!["carol <carol@example.com>"]);
}

#[test]
fn parses_project_extra_environment() {
    let project = parse_text(
        "project \"demo\" { extra.env { RUST_BACKTRACE = \"full\" CARGO_TERM_COLOR = \"always\" } executable \"demo\" { sources = [\"src/main.rs\"] } }",
    )
    .expect("extra.env should parse");

    assert_eq!(env_value(&project.extra_env, "RUST_BACKTRACE"), Some(&"full".to_string()));
    assert_eq!(env_value(&project.extra_env, "CARGO_TERM_COLOR"), Some(&"always".to_string()));
    assert_eq!(project.env("RUST_BACKTRACE"), Some(&"full".to_string()));
}

#[test]
fn rejects_unsupported_qualified_executable_language() {
    let error = parse_text("project \"example\" { executable.unknown \"app\" { sources = [\"main.c\"] } }")
        .expect_err("unsupported executable language should fail");

    assert!(error.to_string().contains("unsupported executable language"));
}

#[test]
fn resolves_project_bindings_in_target_fields() {
    let project = parse(
        "project \"example\" {\n    let source_files = [\"src/main.c\"]\n    let include_paths = [\"include\", \"third_party/include\"]\n    let warning_flags = [\"-Wall\", \"-Wextra\"]\n    let should_install = true\n\n    executable \"app\" {\n        sources = source_files\n        include_dirs = include_paths\n        flags = warning_flags\n        install = should_install\n    }\n}\n",
        "/work/bindings",
        &Resolver::empty(),
    )
    .expect("binding fixture should parse");

    let target = &project.targets[0];
    assert!(target.sources[0].ends_with("main.c"));
    assert!(target.include_dirs[0].ends_with("include"));
    assert_eq!(target.flags, ["-Wall", "-Wextra"]);
    assert!(target.install);
}

#[test]
fn rejects_duplicate_bindings() {
    let error = parse_text(
        "project \"example\" {\n    let flags = [\"-Wall\"]\n    let flags = [\"-Wextra\"]\n    executable \"app\" { sources = [\"main.c\"] }\n}\n",
    )
    .expect_err("duplicate bindings should fail");

    assert!(error.to_string().contains("declared more than once"));
}

#[test]
fn recognizes_a_license_file_through_the_resolver() {
    let text = "project \"fixture\" { license = file(\"./UNLICENSE\") executable \"fixture\" { sources = [\"main.c\"] } }";
    let missing = next_request(text, "/tmp/fixture", &Resolver::empty());
    assert_eq!(missing, Some(Request::License("./UNLICENSE".to_string())));
    let mut resolver = Resolver::empty();
    resolver.licenses.push(("./UNLICENSE".to_string(), Ok(Some("Unlicense".to_string()))));
    let project = parse(text, "/tmp/fixture", &resolver).expect("license file should be recognized");
    assert_eq!(project.license, "Unlicense");
}

#[test]
fn rejects_an_unrecognized_license_file() {
    let text = "project \"fixture\" { license = file(\"LICENSE\") executable \"fixture\" { sources = [\"main.c\"] } }";
    let mut resolver = Resolver::empty();
    resolver.licenses.push(("LICENSE".to_string(), Ok(None)));
    let error = parse(text, "/tmp/fixture", &resolver).expect_err("fake license should be rejected");
    assert!(error.to_string().contains("could not identify"));
}

#[test]
fn orders_targets_after_their_dependencies() {
    let project = parse_text(
        "project \"p\" { executable \"app\" { sources = [\"main.c\"] dependencies = [\"core\"] } static_library \"core\" { sources = [\"core.c\"] dependencies = [\"util\"] } static_library \"util\" { sources = [\"util.c\"] } }",
    )
    .expect("project should parse");
    let names = order(&project).expect("acyclic");
    let position = |name: &str| names.iter().position(|n| n == name).unwrap();
    assert!(position("util") < position("core"));
    assert!(position("core") < position("app"));
    assert_eq!(names.len(), 3);
    assert!(validate(&project).is_ok());
}

#[test]
fn reports_dependency_cycles_and_unknown_targets() {
    let cyclic = parse_text(
        "project \"p\" { static_library \"a\" { sources = [\"a.c\"] dependencies = [\"b\"] } static_library \"b\" { sources = [\"b.c\"] dependencies = [\"a\"] } }",
    )
    .expect("project should parse");
    let error = order(&cyclic).expect_err("cycle");
    assert!(error.to_string().contains("dependency cycle involving"));
    let unknown = parse_text("project \"p\" { executable \"a\" { sources = [\"a.c\"] dependencies = [\"ghost\"] } }")
        .expect("project should parse");
    let error = order(&unknown).expect_err("unknown");
    assert!(error.to_string().contains("unknown target 'ghost'"));
}

#[test]
fn requires_a_target() {
    let error = parse_text("project \"empty\" { version = \"1.0.0\" }").expect_err("no targets");
    assert!(error.to_string().contains("at least one target"));
}

#[test]
fn keeps_task_settings() {
    let project = parse_text("project \"p\" { executable \"a\" { sources = [\"a.c\"] } }").unwrap();
    assert!(project.settings.iter().all(|(_, setting)| matches!(setting, Setting::String(_) | Setting::List(_))));
}

#[test]
fn orders_targets_depth_first_in_declaration_order() {
    let project = parse_text(
        "project \"p\" { executable \"app\" { sources = [\"app.c\"] dependencies = [\"math\"] } static_library \"math\" { sources = [\"math.c\"] } executable \"tool\" { sources = [\"tool.c\"] } }",
    )
    .expect("project should parse");
    let names = order(&project).expect("acyclic");
    assert_eq!(names, vec!["math".to_string(), "app".to_string(), "tool".to_string()]);
}

#[test]
fn reports_a_target_without_sources_as_a_configuration_error() {
    match parse_text(r#"project "p" { executable "app" { flags = ["-Wall"] } }"#) {
        Err(Error::Config(message)) => assert_eq!(message, "target 'app' has no sources"),
        other => panic!("unexpected result: {:?}", other),
    }
}

#[test]
fn reports_a_project_without_targets_as_a_configuration_error() {
    match parse_text(r#"project "p" { }"#) {
        Err(Error::Config(message)) => assert_eq!(message, "project must define at least one target"),
        other => panic!("unexpected result: {:?}", other),
    }
}

#[test]
fn reports_an_unknown_project_member_as_a_parse_error() {
    match parse_text(r#"project "p" { colour = "red" }"#) {
        Err(Error::Parse(message)) => assert_eq!(message, "unknown project member 'colour'"),
        other => panic!("unexpected result: {:?}", other),
    }
}
