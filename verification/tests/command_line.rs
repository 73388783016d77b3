use nox::cli::help::print;
use nox::cli::invocation::{parse_invocation, Parsed};
use nox::cli::project::{
    configured_build_dir, install_directory, is_nix_managed_path, locate_root, next_version, parse_version,
    project_action, replace_version_tokens, ProjectAction,
};
use nox::domain::model::TargetKind;
use nox::cli::version::{
    cargo_install_arguments, compare_versions, install_selector, latest_commit, parse_semver,
    update_outcome, version_url, Order, UpdateChannel, UpdateOutcome, UpdateTarget,
};
use nox::domain::error::Error;
use nox::rules::base::BaseRules;

fn semver(text: &str) -> nox::cli::version::SemVersion {
    parse_semver(text).expect("valid version")
}

#[test]
fn resolves_short_command_aliases() {
    let rules = BaseRules::load().expect("embedded base rules should load");
    assert_eq!(rules.command_name("b"), Some("build"));
    assert_eq!(rules.command_name("build"), Some("build"));
    assert_eq!(rules.command_name("r"), Some("run"));
    assert_eq!(rules.command_name("run"), Some("run"));
    assert_eq!(rules.command_name("i"), Some("install"));
    assert_eq!(rules.command_name("install"), Some("install"));
    assert_eq!(rules.command_name("doc"), Some("doctor"));
    assert_eq!(rules.command_name("env"), Some("env"));
    assert_eq!(rules.command_name("debug"), None);
}

#[test]
fn loads_command_initialization_rules() {
    let rules = BaseRules::load().expect("embedded base rules should load");
    assert_eq!(rules.command_name("b"), Some("build"));
    assert!(!rules.command("version").unwrap().requires_project);
    assert!(!rules.requires_initialization("setup"));
    assert!(rules.accepts_files_as_input("run"));
    assert!(rules.requires_initialization("run"));
}

#[test]
fn compares_semantic_versions_and_prereleases() {
    assert_eq!(compare_versions(&semver("1.2.10"), &semver("1.2.9")), Order::Greater);
    assert_eq!(compare_versions(&semver("1.2.5"), &semver("1.2.5-dev")), Order::Greater);
    assert_eq!(compare_versions(&semver("1.2.5-10"), &semver("1.2.5-2")), Order::Greater);
}

#[test]
fn identifies_nix_paths_without_matching_unrelated_installations() {
    assert!(is_nix_managed_path("/Users/playfairs/.nix-profile/bin/nox"));
    assert!(is_nix_managed_path("/nix/store/nox/bin/nox"));
    assert!(!is_nix_managed_path("/usr/local/bin/nox"));
}

#[test]
fn version_comparison_is_antisymmetric_on_examples() {
    let pairs = [("1.0.0", "1.0.1"), ("1.0.0-alpha", "1.0.0-alpha.1"), ("1.0.0-alpha", "1.0.0-beta"), ("2.0.0", "1.9.9")];
    for (a, b) in pairs {
        let forward = compare_versions(&semver(a), &semver(b));
        let backward = compare_versions(&semver(b), &semver(a));
        match forward {
            Order::Less => assert_eq!(backward, Order::Greater),
            Order::Greater => assert_eq!(backward, Order::Less),
            Order::Equal => assert_eq!(backward, Order::Equal),
        }
    }
    assert_eq!(compare_versions(&semver("v1.2.3+build"), &semver("1.2.3")), Order::Equal);
}

#[test]
fn semantic_versions_are_written_back() {
    assert_eq!(semver("v1.2.3-rc.1+meta").to_text(), "1.2.3-rc.1");
    assert_eq!(semver("0.0.7").to_text(), "0.0.7");
}

#[test]
fn rejects_invalid_semantic_versions() {
    for text in ["1.2", "1..3", "a.b.c", "1.2.3.4"] {
        match parse_semver(text) {
            Err(Error::Config(message)) => assert!(message.contains("is not valid semantic version")),
            _ => panic!("'{text}' should be rejected"),
        }
    }
}

#[test]
fn bumps_versions_by_release_type() {
    assert_eq!(next_version("9.8.7", None).unwrap(), "9.8.8");
    assert_eq!(next_version("9.8.7", Some("patch")).unwrap(), "9.8.8");
    assert_eq!(next_version("9.8.7", Some("minor")).unwrap(), "9.9.0");
    assert_eq!(next_version("9.8.7", Some("major")).unwrap(), "10.0.0");
    assert_eq!(next_version("9.8.7", Some("2.0.0")).unwrap(), "2.0.0");
    assert!(next_version("9.8.7", Some("two")).is_err());
    assert_eq!(parse_version("1.2.3").unwrap(), [1, 2, 3]);
    assert!(parse_version("1.2").is_err());
}

#[test]
fn replaces_only_whole_version_references() {
    assert_eq!(replace_version_tokens("version = \"9.8.7\"\n", "9.8.7", "9.8.8"), "version = \"9.8.8\"\n");
    assert_eq!(
        replace_version_tokens("old 9.8.7 and 19.8.7\n", "9.8.7", "9.8.8"),
        "old 9.8.8 and 19.8.7\n"
    );
    assert_eq!(replace_version_tokens("9.8.7.1", "9.8.7", "9.8.8"), "9.8.7.1");
}

#[test]
fn reads_quoted_build_dir_from_state_text() {
    let state = "build_dir=\"/tmp/root/custom build dir\"\n";
    assert_eq!(
        configured_build_dir("/tmp/root", Some(state), "nox.state", false).unwrap(),
        Some("/tmp/root/custom build dir".to_string())
    );
}

#[test]
fn joins_a_relative_build_dir_to_the_root() {
    assert_eq!(
        configured_build_dir("/tmp/root", Some("build_dir=out\n"), "nox.state", false).unwrap(),
        Some("/tmp/root/out".to_string())
    );
    assert_eq!(configured_build_dir("/tmp/root", None, "nox.state", false).unwrap(), None);
    match configured_build_dir("/tmp/root", Some("other=1\n"), "nox.config", false) {
        Err(Error::Config(message)) => assert_eq!(message, "invalid nox.config"),
        _ => panic!("a state without build_dir is invalid"),
    }
}

#[test]
fn joins_windows_paths_as_windows_does() {
    let none: Vec<String> = Vec::new();
    match project_action("install", &none, false, "C:\\Program Files\\Nox", "C:\\work\\p", true) {
        Ok(ProjectAction::Install(prefix)) => assert_eq!(prefix, "C:\\Program Files\\Nox"),
        _ => panic!("install has a prefix"),
    }
    match project_action("install", &none, false, "out", "C:\\work\\p", true) {
        Ok(ProjectAction::Install(prefix)) => assert_eq!(prefix, "C:\\work\\p\\out"),
        _ => panic!("install has a prefix"),
    }
    match project_action("install", &none, false, "C:\\Program Files\\Nox", "/work/p", false) {
        Ok(ProjectAction::Install(prefix)) => assert_eq!(prefix, "/work/p/C:\\Program Files\\Nox"),
        _ => panic!("install has a prefix"),
    }
}

#[test]
fn locates_the_project_root() {
    let (root, warning) = locate_root("/p", true, Some("/"), false).unwrap();
    assert_eq!(root, "/p");
    assert!(warning.is_none());
    let (root, warning) = locate_root("/p/src", false, Some("/p"), true).unwrap();
    assert_eq!(root, "/p");
    assert_eq!(warning.unwrap(), "path '/p/src' does not contain a 'nox.build', searching up");
    assert!(locate_root("/p/src", false, Some("/p"), false).is_err());
}

#[test]
fn help_names_commands_and_falls_back_for_unknown_ones() {
    assert!(print("").starts_with("The Nox Build System"));
    assert!(print("compile").contains("Usage: nox compile"));
    assert!(print("configure").starts_with("Usage: nox setup"));
    assert_eq!(print("nonsense"), "Unknown command. Run 'nox --help' to list available commands.");
}

#[test]
fn parses_a_build_invocation_with_options() {
    let rules = BaseRules::load().unwrap();
    let args: Vec<String> = ["b", "-C", "out", "--release", "-j", "4"].iter().map(|s| s.to_string()).collect();
    match parse_invocation(&args, &rules, "/usr/local", 1).unwrap() {
        Parsed::Invocation(invocation) => {
            assert_eq!(invocation.command, "build");
            assert_eq!(invocation.build_dir, "out");
            assert!(invocation.build_dir_explicit);
            assert_eq!(invocation.configuration, "release");
            assert_eq!(invocation.jobs, 4);
        }
        Parsed::Version => panic!("expected an invocation"),
    }
    let version: Vec<String> = vec!["--version".to_string()];
    assert!(matches!(parse_invocation(&version, &rules, "/usr/local", 1).unwrap(), Parsed::Version));
}

#[test]
fn update_outcomes_follow_the_version_order() {
    let installed = semver("1.2.3");
    let channel = UpdateTarget::Channel(UpdateChannel::Stable);
    match update_outcome(&channel, &semver("1.2.3"), &installed, "1.2.3") {
        UpdateOutcome::Nothing(message) => assert_eq!(message, "Nox is already up to date (1.2.3)."),
        _ => panic!("nothing to install"),
    }
    match update_outcome(&UpdateTarget::Version(semver("1.0.0")), &semver("1.0.0"), &installed, "1.2.3") {
        UpdateOutcome::Nothing(message) => assert!(message.starts_with("Requested version (1.0.0) is older")),
        _ => panic!("nothing to install"),
    }
    match update_outcome(&UpdateTarget::Channel(UpdateChannel::Dev), &semver("1.3.0"), &installed, "1.2.3") {
        UpdateOutcome::Install(message, args, channel) => {
            assert_eq!(message, "A newer development version of Nox is available: 1.3.0.\nUpdating...");
            assert_eq!(args, ["--branch", "dev"]);
            assert_eq!(channel, "dev");
        }
        _ => panic!("should install"),
    }
    assert_eq!(install_selector(&UpdateTarget::Version(semver("2.0.0"))), ["--tag", "v2.0.0"]);
    assert_eq!(UpdateChannel::Stable.branch(), "master");
    assert!(UpdateChannel::parse("nightly").is_err());
}

#[test]
fn reads_the_latest_commit_and_builds_the_version_url() {
    assert_eq!(latest_commit("abc123\trefs/heads/master\n").unwrap(), "abc123");
    assert!(latest_commit("  \n").is_err());
    assert_eq!(
        version_url("abc123", 42),
        "https://raw.githubusercontent.com/playfairs/nox/abc123/VERSION?cachebust=42"
    );
    let selector = vec!["--branch".to_string(), "master".to_string()];
    assert_eq!(
        cargo_install_arguments("/home/u/.cargo", &selector),
        ["install", "--git", "https://github.com/playfairs/nox.git", "nox", "--root", "/home/u/.cargo", "--branch", "master", "--locked", "--force"]
    );
}

#[test]
fn installs_libraries_under_lib_and_executables_under_bin() {
    assert_eq!(install_directory("/usr/local", TargetKind::RustLibrary), "/usr/local/lib");
    assert_eq!(install_directory("/usr/local", TargetKind::StaticLibrary), "/usr/local/lib");
    assert_eq!(install_directory("/usr/local", TargetKind::SharedLibrary), "/usr/local/lib");
    assert_eq!(install_directory("/usr/local", TargetKind::Executable { language: None }), "/usr/local/bin");
}

#[test]
fn maps_project_commands_to_actions() {
    let none: Vec<String> = Vec::new();
    assert!(matches!(project_action("build", &none, false, "", "/p", false), Ok(ProjectAction::Build)));
    assert!(matches!(project_action("compile", &none, false, "", "/p", false), Ok(ProjectAction::Build)));
    assert!(matches!(project_action("clean", &none, false, "", "/p", false), Ok(ProjectAction::Clean)));
    assert!(matches!(project_action("configure", &none, true, "", "/p", false), Ok(ProjectAction::Setup(true))));
    assert!(matches!(project_action("stat", &none, false, "", "/p", false), Ok(ProjectAction::Status)));
    match project_action("test", &none, false, "", "/p", false) {
        Ok(ProjectAction::Task(name)) => assert_eq!(name, "test"),
        _ => panic!("test runs the test task"),
    }
    match project_action("frobnicate", &none, false, "", "/p", false) {
        Err(Error::Config(message)) => assert_eq!(message, "unknown command 'frobnicate'"),
        _ => panic!("unknown commands are errors"),
    }
}
