//! What a directory holds, as the commands that inspect a project see it.
use vstd::prelude::*;
use crate::domain::error::Error;
use crate::init::detect;
use crate::init::language::{is_test_path, in_test_directory};
use crate::init::project::ProjectInfo;
use crate::init::scanner::{self, ScanEntry, has_entry};
use crate::rules::init::InitRules;
pub use crate::init::language::{Language, ProjectType};

verus! {

/// The findings of an analysis: those of `nox init`'s scan, with the
/// project type inferred, and whether `nix` and a license file exist.
#[derive(Clone, Debug)]
pub struct Analysis {
    pub languages: Vec<Language>,
    pub source_files: Vec<String>,
    pub header_files: Vec<String>,
    pub source_directories: Vec<String>,
    pub test_directories: Vec<String>,
    pub project_name: Option<String>,
    pub project_type: Option<ProjectType>,
    pub package_manifests: Vec<String>,
    pub build_systems: Vec<String>,
    pub formatter_configs: Vec<String>,
    pub has_flake: bool,
    pub has_nix_directory: bool,
    pub has_nix_formatter: bool,
    pub has_nox_build: bool,
    pub has_noxfile: bool,
    pub has_git: bool,
    pub has_readme: bool,
    pub has_license: bool,
    pub has_tests: bool,
}

/// Whether an analysis carries the findings of a scan `p`.
pub open spec fn carries(a: Analysis, p: ProjectInfo) -> bool {
    &&& a.languages == p.languages
    &&& a.source_files == p.source_files
    &&& a.header_files == p.header_files
    &&& a.source_directories == p.source_directories
    &&& a.test_directories == p.test_directories
    &&& a.project_name == p.name
    &&& a.project_type == p.project_type
    &&& a.package_manifests == p.package_manifests
    &&& a.build_systems == p.build_systems
    &&& a.formatter_configs == p.formatter_configs
    &&& a.has_flake == p.has_flake
    &&& a.has_nix_formatter == p.has_nix_formatter
    &&& a.has_nox_build == p.has_nox_build
    &&& a.has_noxfile == p.has_noxfile
    &&& a.has_git == p.has_git
    &&& a.has_readme == p.has_readme
    &&& a.has_tests == p.has_tests
}

/// Analyzes the entries below `root` with the built-in rules: the scan's
/// findings with the project type inferred, whether a `nix` directory
/// exists, and whether a `LICENSE` or `LICENCE` exists.
pub fn analyze(root: &str, entries: &Vec<ScanEntry>) -> (r: Result<Analysis, Error>)
    ensures
        r matches Ok(a) && exists|rules: InitRules, p: ProjectInfo, q: ProjectInfo|
            rules.valid() && scanner::scanned(p, root@, entries@, rules) && detect::inferred(p, q, rules) && carries(a, q),
        r matches Ok(a) ==> a.has_nix_directory == has_entry(entries@, "nix"@, false),
        r matches Ok(a) ==> a.has_license == (has_entry(entries@, "LICENSE"@, false) || has_entry(entries@, "LICENCE"@, false)),
{
    let rules = match InitRules::load() {
        Ok(rules) => rules,
        Err(m) => return Err(Error::Config(m)),
    };
    let mut project = scanner::scan(root, entries, &rules);
    let ghost scanned = project;
    detect::infer_type(&mut project, &rules);
    let has_nix_directory = scanner::find_entry(entries, "nix", false);
    let has_license = scanner::find_entry(entries, "LICENSE", false) || scanner::find_entry(entries, "LICENCE", false);
    let ghost q = project;
    let a = Analysis {
        languages: project.languages,
        source_files: project.source_files,
        header_files: project.header_files,
        source_directories: project.source_directories,
        test_directories: project.test_directories,
        project_name: project.name,
        project_type: project.project_type,
        package_manifests: project.package_manifests,
        build_systems: project.build_systems,
        formatter_configs: project.formatter_configs,
        has_flake: project.has_flake,
        has_nix_directory,
        has_nix_formatter: project.has_nix_formatter,
        has_nox_build: project.has_nox_build,
        has_noxfile: project.has_noxfile,
        has_git: project.has_git,
        has_readme: project.has_readme,
        has_license,
        has_tests: project.has_tests,
    };
    assert(carries(a, q));
    Ok(a)
}

/// Whether a path lies in a test directory (the names `nox init` knows
/// without rules).
pub fn is_test_path_legacy(path: &str) -> (r: bool)
    ensures
        r == in_test_directory(path@),
{
    is_test_path(path)
}

} // verus!
