use nox::domain::model::{Project, Target, TargetKind};
use nox::run::{configuration_mismatch, handler_language, run_path, select_target, target_request, TemporaryArtifact};

fn executable(name: &str) -> Target {
    Target {
        name: name.to_string(),
        kind: TargetKind::Executable { language: None },
        sources: vec![],
        dependencies: vec![],
        include_dirs: vec![],
        defines: vec![],
        flags: vec![],
        linker_flags: vec![],
        gradle_tasks: vec![],
        gradle_options: vec![],
        gradle_run_tasks: vec![],
        gradle_run_options: vec![],
        install: false,
    }
}

fn project(targets: Vec<Target>) -> Project {
    Project {
        name: "demo".to_string(),
        version: None,
        version_files: None,
        description: String::new(),
        license: String::new(),
        edition: "1".to_string(),
        dependencies: vec![],
        repository: None,
        website: None,
        authors: vec![],
        maintainers: vec![],
        targets,
        settings: vec![],
        extra_env: vec![],
    }
}

#[test]
fn selects_single_executable_without_explicit_name() {
    let project = project(vec![executable("app")]);
    assert_eq!(select_target(&project, None).unwrap().name, "app");
}

#[test]
fn rejects_ambiguous_run_without_target_name() {
    let project = project(vec![executable("app"), executable("worker")]);
    let error = select_target(&project, None).unwrap_err().to_string();
    assert!(error.contains("there are 2 executables in this project"));
    assert!(error.contains("nox targets"));
    assert!(error.contains("nox run <name>"));
}

#[test]
fn resolves_supported_file_handlers() {
    for (source, language) in [
        ("Test.fsx", "F#"),
        ("Test.c", "C"),
        ("Test.cpp", "C++"),
        ("Test.d", "D"),
        ("Test.rb", "Ruby"),
        ("Test.py", "Python"),
        ("Test.js", "JavaScript"),
    ] {
        let path = format!("/work/tests/fixtures/run/handlers/{source}");
        assert_eq!(handler_language(&path).unwrap(), language);
    }
}

#[test]
fn rejects_unknown_file_handlers() {
    assert!(handler_language("/work/tests/fixtures/run/handlers/Test.unknown").is_err());
}

#[test]
fn temporary_artifacts_live_outside_the_source_tree_and_clean_up() {
    let source = "/work/tests/fixtures/run/c/Test.c";
    let artifact = TemporaryArtifact::at("/tmp", 42, 7, source, false);
    assert!(!artifact.path().starts_with("/work/tests/fixtures/run/c"));
    assert!(artifact.path().starts_with("/tmp/"));
    assert!(artifact.directory.starts_with("/tmp/"));
    assert!(artifact.path().starts_with(artifact.directory.as_str()));
    assert_eq!(artifact.directory, "/tmp/nox/run/42-7");
    assert_eq!(artifact.path(), "/tmp/nox/run/42-7/Test");
}

#[test]
fn temporary_artifacts_on_windows_end_in_exe() {
    let artifact = TemporaryArtifact::at("/tmp", 3, 11, "/work/src/hello.cpp", true);
    assert_eq!(artifact.path(), "/tmp/nox/run/3-11/hello.exe");
}

#[test]
fn selects_a_named_target() {
    let mut lib = executable("core");
    lib.kind = TargetKind::StaticLibrary;
    let project = project(vec![executable("app"), lib, executable("worker")]);
    assert_eq!(select_target(&project, Some("worker")).unwrap().name, "worker");
    assert!(select_target(&project, Some("core")).is_err());
    assert!(select_target(&project, Some("ghost")).is_err());
}

#[test]
fn run_requests_and_mismatched_configurations() {
    assert_eq!(target_request(1, "demo", Some("worker")), Some("worker"));
    assert_eq!(target_request(1, "demo", Some("demo")), None);
    assert_eq!(target_request(2, "demo", Some("worker")), None);
    assert_eq!(
        configuration_mismatch("build", "debug", "release").to_string(),
        "configuration error: build directory 'build' is configured for debug, not release"
    );
    assert_eq!(run_path(None, "/p"), "/p/.");
    assert_eq!(run_path(Some("src/a.c"), "/p"), "/p/src/a.c");
}
