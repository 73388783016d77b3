use nox::build_system::executor::{
    artifact_path, build, depfile_dependencies, is_cpp_source, object_needs_build,
};
use nox::build_system::gradle::{gradle_build_arguments, gradle_program, gradle_run_arguments};
use nox::build_system::state::BuildState;
use nox::paths::file_name_of;
use nox::project::parser::{parse, Resolver};
use nox::toolchain::{for_source, RiderKind};

fn state(configuration: &str) -> BuildState {
    BuildState {
        root: "/p".to_string(),
        build_dir: "/p/build".to_string(),
        configuration: configuration.to_string(),
        compiler: "cc".to_string(),
        linker: "cc".to_string(),
        archiver: "ar".to_string(),
        compile_flags: vec!["-Werror".to_string()],
    }
}

#[test]
fn writes_and_reads_back_the_build_state() {
    let saved = state("release");
    let text = saved.to_text();
    assert_eq!(text, "root=/p\nconfiguration=release\ncompiler=cc\nlinker=cc\narchiver=ar\ncompile_flag=-Werror\n");
    let loaded = BuildState::parse(&text, "/p/build").expect("state reads back");
    assert_eq!(loaded.root, saved.root);
    assert_eq!(loaded.build_dir, saved.build_dir);
    assert_eq!(loaded.configuration, saved.configuration);
    assert_eq!(loaded.compiler, saved.compiler);
    assert_eq!(loaded.linker, saved.linker);
    assert_eq!(loaded.archiver, saved.archiver);
    assert_eq!(loaded.compile_flags, saved.compile_flags);
}

#[test]
fn build_state_defaults_and_errors() {
    let loaded = BuildState::parse("root=/p\n", "b").unwrap();
    assert_eq!(loaded.configuration, "debug");
    assert_eq!(loaded.compiler, "cc");
    assert_eq!(loaded.archiver, "ar");
    assert_eq!(BuildState::parse("configuration=debug\n", "b").unwrap_err().to_string(), "configuration error: build state has no root");
    assert_eq!(BuildState::parse("root\n", "b").unwrap_err().to_string(), "configuration error: invalid build state");
    assert_eq!(BuildState::path("/p/build"), "/p/build/nox.state");
    assert_eq!(
        BuildState::not_configured("build").to_string(),
        "configuration error: 'build' is not configured; run nox setup build"
    );
}

#[test]
fn plans_compile_and_link_commands_in_dependency_order() {
    let project = parse(
        "project \"p\" { executable \"app\" { sources = [\"main.cpp\"] dependencies = [\"core\"] flags = [\"-Wall\"] defines = [\"NDEBUG\"] include_dirs = [\"include\"] } static_library \"core\" { sources = [\"core.c\"] } }",
        "/p",
        &Resolver::empty(),
    )
    .expect("project parses");
    let plans = build(&project, &state("debug"), "rustc", "c++").expect("plans");
    assert_eq!(plans.len(), 2);
    assert_eq!(plans[0].name, "core");
    assert_eq!(plans[0].artifact, "/p/build/debug/core/libcore.a");
    assert_eq!(plans[0].link.program, "ar");
    assert_eq!(plans[0].link.args, ["-rcs", "/p/build/debug/core/libcore.a", "/p/build/debug/core/core.o"]);
    let app = &plans[1];
    assert_eq!(app.compiles[0].command.program, "c++");
    assert_eq!(
        app.compiles[0].command.args,
        [
            "-MMD", "-MF", "/p/build/debug/app/main.d", "-c", "/p/main.cpp", "-o", "/p/build/debug/app/main.o",
            "-g", "-O0", "-Wall", "-Werror", "-DNDEBUG", "-I/p/include",
        ]
    );
    assert_eq!(app.link.program, "c++");
    assert_eq!(
        app.link.args,
        ["/p/build/debug/app/main.o", "/p/build/debug/core/libcore.a", "-o", "/p/build/debug/app/app"]
    );
}

#[test]
fn plans_rust_targets_with_rustc() {
    let project = parse(
        "project \"p\" { rust_library \"util\" { sources = [\"src/lib.rs\"] } }",
        "/p",
        &Resolver::empty(),
    )
    .expect("project parses");
    let plans = build(&project, &state("release"), "rustc", "c++").unwrap();
    assert_eq!(plans[0].link.program, "rustc");
    assert_eq!(plans[0].link.args, ["/p/src/lib.rs", "-o", "/p/build/release/util/util", "--crate-type", "lib"]);
    assert!(plans[0].compiles.is_empty());
}

#[test]
fn artifacts_and_sources_are_named_by_kind() {
    let project = parse(
        "project \"p\" { shared_library \"plug\" { sources = [\"a.cc\"] } }",
        "/p",
        &Resolver::empty(),
    )
    .unwrap();
    assert_eq!(artifact_path("/out", &project.targets[0]), "/out/libplug.so");
    assert!(is_cpp_source("x/a.cxx"));
    assert!(!is_cpp_source("x/a.c"));
}

#[test]
fn decides_whether_objects_are_out_of_date() {
    assert!(object_needs_build(None, Some(1), None));
    assert!(object_needs_build(Some(5), Some(6), Some(&vec![])));
    assert!(object_needs_build(Some(5), Some(4), None));
    assert!(!object_needs_build(Some(5), Some(4), Some(&vec![Some(3), None])));
    assert!(object_needs_build(Some(5), Some(4), Some(&vec![Some(3), Some(9)])));
    assert_eq!(
        depfile_dependencies("main.o: src/main.c \\\n include/util.h\\\n"),
        ["src/main.c", "", "include/util.h"]
    );
}

#[test]
fn gradle_targets_use_their_tasks() {
    let project = parse(
        "project \"p\" { executable.gradle \"app\" { } }",
        "/p",
        &Resolver::empty(),
    );
    if let Ok(project) = project {
        let target = &project.targets[0];
        assert_eq!(gradle_run_arguments(target), [":app:run"]);
        assert_eq!(gradle_build_arguments(target), [":app:build"]);
    }
    let (program, args) = gradle_program("/p", true, false);
    assert_eq!(program, "/p/gradlew");
    assert!(args.is_empty());
    let (program, args) = gradle_program("/p", true, true);
    assert_eq!(program, "cmd");
    assert_eq!(args, ["/C", "/p/gradlew.bat"]);
    assert_eq!(gradle_program("/p", false, false).0, "gradle");
}

#[test]
fn chooses_riders_by_extension() {
    assert_eq!(for_source("src/widget.cc").map(|r| r.kind), Some(RiderKind::Cpp));
    assert_eq!(for_source("build.kts").map(|r| r.kind), Some(RiderKind::Kotlin));
    assert_eq!(for_source("main.rs").map(|r| r.name), Some("Rust Rider".to_string()));
    assert!(for_source("x.h").is_none());
    assert!(for_source("Makefile").is_none());
}

#[test]
fn reads_file_names_as_paths_do() {
    assert_eq!(file_name_of("a/b.c"), Some("b.c".to_string()));
    assert_eq!(file_name_of("a/."), Some("a".to_string()));
    assert_eq!(file_name_of("a/./"), Some("a".to_string()));
    assert_eq!(file_name_of("a/b/"), Some("b".to_string()));
    assert_eq!(file_name_of("."), None);
    assert_eq!(file_name_of("a/.."), None);
    assert_eq!(file_name_of("/"), None);
}
