use nox::init::buildgen::render;
use nox::init::config::Options;
use nox::init::detect::{answer, infer_type, language, project_type, LanguageChoice};
use nox::init::error::Error;
use nox::init::flow::{project_name, report};
use nox::init::language::{is_test_path, Language, ProjectType};
use nox::init::layout::include_directories;
use nox::init::new::create_files;
use nox::init::project::ProjectInfo;
use nox::init::scanner::{scan, source_files, ScanEntry};
use nox::init::templates;
use nox::rules::init::InitRules;

fn dir(path: &str) -> ScanEntry {
    ScanEntry { path: path.to_string(), directory: true, contents: None }
}

fn file(path: &str) -> ScanEntry {
    ScanEntry { path: path.to_string(), directory: false, contents: None }
}

fn file_with(path: &str, contents: &str) -> ScanEntry {
    ScanEntry { path: path.to_string(), directory: false, contents: Some(contents.to_string()) }
}

fn options() -> Options {
    Options {
        project_name: Some("fixture".into()),
        language: Some("rust".into()),
        nix: false,
        noxfile: false,
        ..Options::default()
    }
}

#[test]
fn initialization_rules_are_loaded_and_drive_aliases_and_ignores() {
    let rules = InitRules::load().expect("embedded init rules should load");
    assert_eq!(Language::parse_with_rules("cpp", &rules), Some(Language::Cpp));
    assert!(rules.ignores.iter().any(|rule| rule.path == ".cache"));
    assert_eq!(
        rules.target(Language::Cpp, ProjectType::Executable).unwrap().target,
        "cxx_executable"
    );
}

#[test]
fn scan_collects_sorted_nested_sources_and_skips_tests() {
    let rules = InitRules::load().unwrap();
    let entries = vec![
        dir("src"),
        file("src/main.cpp"),
        dir("src/nested"),
        file("src/nested/util.cpp"),
        dir("tests"),
        file("tests/test_main.cpp"),
    ];
    let project = scan("/tmp/recursive", &entries, &rules);
    assert_eq!(source_files(&project, Language::Cpp, &rules), ["src/main.cpp", "src/nested/util.cpp"]);
    assert!(project.test_directories.iter().any(|d| d == "tests"));
    assert!(project.has_tests);
}

#[test]
fn scan_skips_ignored_directories_and_reads_manifest_names() {
    let rules = InitRules::load().unwrap();
    let entries = vec![
        dir(".git"),
        file("Cargo.toml"),
        dir("node_modules"),
        file("node_modules/x/index.js"),
        dir("src"),
        file("src/main.rs"),
    ];
    let mut entries = entries;
    entries[1] = file_with("Cargo.toml", "[package]\nname = \"demo\"\nversion = \"0.1.0\"\n");
    let mut project = scan("/tmp/p", &entries, &rules);
    assert_eq!(project.name.as_deref(), Some("demo"));
    assert_eq!(project.languages, [Language::Rust]);
    assert!(project.has_git);
    assert_eq!(project.package_manifests, ["Cargo.toml"]);
    assert_eq!(project.build_systems, ["Cargo"]);
    assert_eq!(project.existing_files, ["Cargo.toml", "src/main.rs"]);
    assert_eq!(project.source_directories, ["src"]);
    infer_type(&mut project, &rules);
    assert_eq!(project.project_type, Some(ProjectType::Executable));
}

#[test]
fn javascript_reads_as_typescript_with_a_tsconfig() {
    let rules = InitRules::load().unwrap();
    let entries = vec![file("index.js"), file("tsconfig.json")];
    let project = scan("/tmp/ts", &entries, &rules);
    assert_eq!(project.languages, [Language::TypeScript]);
}

#[test]
fn generated_cpp_properties_follow_rule_order() {
    let rules = InitRules::load().unwrap();
    let entries = vec![
        dir("include"),
        file("include/util.hpp"),
        dir("src"),
        file("src/main.cpp"),
        dir("src/nested"),
        file("src/nested/util.cpp"),
    ];
    let project = scan("/tmp/rules", &entries, &rules);
    assert_eq!(include_directories("/tmp/rules", &project, &rules), ["/tmp/rules/include"]);
    let generated = render(&project, &rules, Language::Cpp, ProjectType::Executable, "fixture");
    assert!(generated.contains("\"src/main.cpp\",\n        \"src/nested/util.cpp\""));
    assert!(generated.find("sources =").unwrap() < generated.find("include_dirs =").unwrap());
    assert!(generated.find("include_dirs =").unwrap() < generated.find("flags =").unwrap());
    assert!(generated.contains("\"-std=c++20\""));
    assert!(generated.contains("cxx_executable \"fixture\""));
}

#[test]
fn empty_init_generates_a_build_target_for_the_starter_source() {
    let rules = InitRules::load().unwrap();
    let project = scan("/tmp/empty", &vec![], &rules);
    let files = create_files(&project, &rules, Language::Rust, ProjectType::Executable, &options(), "fixture");
    let build = files.iter().find(|f| f.path == "nox.build").expect("nox.build is generated");
    assert!(build.contents.contains("\"src/main.rs\""));
    assert!(files.iter().any(|f| f.path == "src/main.rs" && f.contents == "fn main() {}\n"));
    assert!(!files.iter().any(|f| f.path == "flake.nix" || f.path == "noxfile"));
}

#[test]
fn rust_init_uses_the_project_name_in_generated_bin_manifest() {
    let rules = InitRules::load().unwrap();
    let project = scan("/tmp/rust-bin-name", &vec![], &rules);
    let files = create_files(&project, &rules, Language::Rust, ProjectType::Executable, &options(), "fixture");
    let manifest = files.iter().find(|f| f.path == "Cargo.toml").expect("Cargo.toml is generated");
    assert!(manifest.contents.contains("name = \"fixture\""));
    assert!(!manifest.contents.contains("name = \"{name}\""));
}

#[test]
fn detects_languages_and_project_types() {
    let rules = InitRules::load().unwrap();
    let project = ProjectInfo::empty("/tmp/x");
    assert!(matches!(language(&project, &rules, Some("C++"), false), Ok(LanguageChoice::Chosen(Language::Cpp))));
    assert!(matches!(language(&project, &rules, Some("cobol"), false), Err(Error::UnsupportedLanguage(_))));
    assert!(matches!(language(&project, &rules, None, false), Ok(LanguageChoice::Chosen(Language::Rust))));
    assert!(matches!(language(&project, &rules, None, true), Ok(LanguageChoice::Ask(Language::Rust))));
    assert_eq!(answer("  \n", Language::Python, &rules).unwrap(), Language::Python);
    assert_eq!(answer(" ts ", Language::Python, &rules).unwrap(), Language::TypeScript);
    assert_eq!(project_type(&project, Some("LIB")).unwrap(), ProjectType::Library);
    assert_eq!(project_type(&project, None).unwrap(), ProjectType::Executable);
    match project_type(&project, Some("plugin")) {
        Err(Error::Configuration(message)) => assert_eq!(message, "unsupported project type 'plugin'"),
        _ => panic!("unknown project types are rejected"),
    }
}

#[test]
fn names_and_reports_the_project() {
    let project = ProjectInfo::empty("/tmp/x");
    let mut options = Options::default();
    assert!(project_name(&options, &project, None).is_err());
    assert_eq!(project_name(&options, &project, Some("x")).unwrap(), "x");
    options.project_name = Some("positional".into());
    options.name = Some("flag".into());
    assert_eq!(project_name(&options, &project, Some("x")).unwrap(), "flag");
    let lines = report(&project);
    assert_eq!(lines, [("found".to_string(), "0 source file(s)".to_string())]);
}

#[test]
fn languages_and_paths_are_classified() {
    assert_eq!(Language::parse("Py"), Some(Language::Python));
    assert_eq!(Language::parse("cobol"), None);
    assert_eq!(Language::from_path("src/a.tsx"), Some(Language::TypeScript));
    assert_eq!(Language::from_path("Makefile"), None);
    assert!(Language::is_header("include/a.hpp"));
    assert!(!Language::is_header("src/a.cpp"));
    assert_eq!(Language::Cpp.label(), "C++");
    assert!(is_test_path("pkg/__tests__/a.js"));
    assert!(!is_test_path("pkg/testing/a.js"));
}

#[test]
fn templates_name_the_project() {
    assert_eq!(templates::readme("demo", false), "# demo\n\nA project built and automated with Nox.\n\n## Build\n\n```sh\nnox setup\nnox build\n```\n");
    assert!(templates::swift_manifest("demo", ProjectType::Library).contains("products: [.library(name: \"demo\", targets: [\"demo\"])],"));
    assert_eq!(templates::gitignore(Language::Haskell), "dist-newstyle/\nbuild/\n");
    assert!(templates::flake(Language::Rust, true).contains("[ nox rustc cargo rustfmt nixfmt-rfc-style ]"));
    assert!(templates::noxfile(Language::Rust).contains("run: cargo fmt --all"));
    assert_eq!(templates::formatter(Language::Python), None);
    assert_eq!(templates::starter(Language::Rust, ProjectType::Library), ("src/lib.rs", "pub fn run() {}\n"));
}

#[test]
fn starter_files_are_sources_of_their_language_outside_test_directories() {
    let languages = [
        Language::Rust,
        Language::Haskell,
        Language::C,
        Language::Cpp,
        Language::D,
        Language::Swift,
        Language::JavaScript,
        Language::TypeScript,
        Language::Python,
        Language::FSharp,
    ];
    for language in languages {
        for project_type in [ProjectType::Executable, ProjectType::Library] {
            let (path, _) = templates::starter(language, project_type);
            assert_eq!(Language::from_path(path), Some(language), "{path}");
            assert!(!is_test_path(path), "{path}");
        }
    }
    assert_eq!(templates::starter(Language::Rust, ProjectType::Executable), ("src/main.rs", "fn main() {}\n"));
    assert_eq!(templates::starter(Language::Unknown, ProjectType::Library).0, "src/main.c");
}
