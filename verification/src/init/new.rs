//! The files that `nox init` writes.
use vstd::prelude::*;
use crate::text;
use crate::rules::init::{InitRules, template_applies};
use crate::init::buildgen::{build_text, include_list, render};
use crate::init::config::Options;
use crate::init::language::{Language, ProjectType, in_rule_test_directory, is_test_path_with_rules};
use crate::init::project::ProjectInfo;
use crate::init::templates;

verus! {

/// A file to write, relative to the project root, unless it exists.
#[derive(Clone, Debug)]
pub struct GeneratedFile {
    pub path: String,
    pub contents: String,
}

/// Whether a template of this name applies to the language.
pub open spec fn has_template(rules: InitRules, name: Seq<char>, l: Language) -> bool {
    exists|i: int| 0 <= i < rules.templates@.len() && template_applies(#[trigger] rules.templates@[i], name, l)
}

/// One file if `c` holds, none otherwise.
pub open spec fn when(c: bool, path: Seq<char>, contents: Seq<char>) -> Seq<(Seq<char>, Seq<char>)> {
    if c {
        seq![(path, contents)]
    } else {
        Seq::empty()
    }
}

/// `Cargo.toml` of a new Rust project.
pub open spec fn cargo_manifest(name: Seq<char>, t: ProjectType) -> Seq<char> {
    "[package]\nname = \""@ + name + "\"\nversion = \"0.1.0\"\nedition = \"2024\"\n\n"@ + if t == ProjectType::Library {
        "[lib]\npath = \"src/lib.rs\"\n"@
    } else {
        "[[bin]]\nname = \""@ + name + "\"\npath = \"src/main.rs\"\n"@
    }
}

pub open spec fn package_json(name: Seq<char>) -> Seq<char> {
    "{\n  \"name\": \""@ + name + "\",\n  \"version\": \"0.1.0\",\n  \"private\": true\n}\n"@
}

pub open spec fn tsconfig() -> Seq<char> {
    "{\n  \"compilerOptions\": {\n    \"target\": \"ES2022\",\n    \"module\": \"commonjs\",\n    \"outDir\": \"dist\",\n    \"strict\": true\n  },\n  \"include\": [\"src\"]\n}\n"@
}

pub open spec fn pyproject(name: Seq<char>) -> Seq<char> {
    "[project]\nname = \""@ + name + "\"\nversion = \"0.1.0\"\nrequires-python = \">=3.10\"\n"@
}

/// The package files of the language, after `prefix`.
pub open spec fn package_files(prefix: Seq<(Seq<char>, Seq<char>)>, rules: InitRules, l: Language, t: ProjectType, name: Seq<char>) -> Seq<(Seq<char>, Seq<char>)> {
    prefix
        + when(has_template(rules, "rust_manifest"@, l) && l == Language::Rust, "Cargo.toml"@, cargo_manifest(name, t))
        + when(has_template(rules, "javascript_manifest"@, l) && (l == Language::JavaScript || l == Language::TypeScript), "package.json"@, package_json(name))
        + when(has_template(rules, "typescript_config"@, l) && l == Language::TypeScript, "tsconfig.json"@, tsconfig())
        + when(has_template(rules, "swift_manifest"@, l) && l == Language::Swift, "Package.swift"@, templates::swift_manifest_text(name, t))
        + when(has_template(rules, "python_manifest"@, l) && l == Language::Python, "pyproject.toml"@, pyproject(name))
}

/// The formatter configuration, when one is to be written.
pub open spec fn formatter_files(project: ProjectInfo, l: Language, options: Options) -> Seq<(Seq<char>, Seq<char>)> {
    if options.formatter && project.formatter_configs@.len() == 0 && templates::formatter_file(l) is Some {
        seq![templates::formatter_file(l)->0]
    } else {
        Seq::empty()
    }
}

/// The optional files after `nox.build`, after `prefix`.
pub open spec fn optional_files(prefix: Seq<(Seq<char>, Seq<char>)>, project: ProjectInfo, rules: InitRules, l: Language, options: Options, name: Seq<char>) -> Seq<(Seq<char>, Seq<char>)> {
    prefix
        + when(options.noxfile && has_template(rules, "noxfile"@, l) && !project.has_noxfile, "noxfile"@, templates::noxfile_text(l))
        + when(options.nix && has_template(rules, "flake"@, l) && !project.has_flake, "flake.nix"@, templates::flake_text(l, options.formatter))
        + formatter_files(project, l, options)
        + when(options.nix && options.formatter && !project.has_nix_formatter, "nix/formatter.nix"@, templates::nix_formatter_text(l))
        + when(has_template(rules, "readme"@, l) && !project.has_readme, "README.md"@, templates::readme_text(name, options.nix))
        + when(has_template(rules, "gitignore"@, l), ".gitignore"@, templates::gitignore_text(l))
}

/// The files of a new project, in the order they are written; `build`
/// is the generated `nox.build`.
pub open spec fn planned_files(
    project: ProjectInfo,
    rules: InitRules,
    l: Language,
    t: ProjectType,
    options: Options,
    name: Seq<char>,
    build: Seq<char>,
) -> Seq<(Seq<char>, Seq<char>)> {
    let no_sources = forall|i: int| 0 <= i < project.source_files@.len() ==> in_rule_test_directory(#[trigger] project.source_files@[i]@, rules.conventions@);
    let starter = when(no_sources, templates::starter_file(l, t).0, templates::starter_file(l, t).1);
    optional_files(package_files(starter, rules, l, t, name).push(("nox.build"@, build)), project, rules, l, options, name)
}

/// The paths and contents of a list of generated files.
pub open spec fn file_views(files: Seq<GeneratedFile>) -> Seq<(Seq<char>, Seq<char>)> {
    files.map_values(|f: GeneratedFile| (f.path@, f.contents@))
}

fn plan_file(files: &mut Vec<GeneratedFile>, path: &str, contents: &str)
    ensures
        file_views(final(files)@) == file_views(old(files)@) + seq![(path@, contents@)],
{
    let ghost before = files@;
    files.push(GeneratedFile { path: text::owned(path), contents: text::owned(contents) });
    assert(file_views(files@) =~= file_views(before) + seq![(path@, contents@)]);
}

/// Adds a file when `c` holds.
fn plan_when(files: &mut Vec<GeneratedFile>, c: bool, path: &str, contents: &str)
    ensures
        file_views(final(files)@) == file_views(old(files)@) + when(c, path@, contents@),
{
    if c {
        plan_file(files, path, contents);
    } else {
        assert(file_views(files@) =~= file_views(files@) + when(c, path@, contents@));
    }
}

fn template_for(rules: &InitRules, name: &str, l: Language) -> (r: bool)
    ensures
        r == has_template(*rules, name@, l),
{
    rules.template(name, l).is_some()
}

fn add_package_files(files: &mut Vec<GeneratedFile>, rules: &InitRules, language: Language, project_type: ProjectType, name: &str)
    ensures
        file_views(final(files)@) == package_files(file_views(old(files)@), *rules, language, project_type, name@),
{
    let mut cargo = text::owned("[package]\nname = \"");
    text::push_str(&mut cargo, name);
    text::push_str(&mut cargo, "\"\nversion = \"0.1.0\"\nedition = \"2024\"\n\n");
    if project_type == ProjectType::Library {
        text::push_str(&mut cargo, "[lib]\npath = \"src/lib.rs\"\n");
    } else {
        let mut kind = text::owned("[[bin]]\nname = \"");
        text::push_str(&mut kind, name);
        text::push_str(&mut kind, "\"\npath = \"src/main.rs\"\n");
        text::push_str(&mut cargo, kind.as_str());
    }
    let c = template_for(rules, "rust_manifest", language) && language == Language::Rust;
    plan_when(files, c, "Cargo.toml", cargo.as_str());
    let mut package = text::owned("{\n  \"name\": \"");
    text::push_str(&mut package, name);
    text::push_str(&mut package, "\",\n  \"version\": \"0.1.0\",\n  \"private\": true\n}\n");
    let c = template_for(rules, "javascript_manifest", language) && (language == Language::JavaScript || language == Language::TypeScript);
    plan_when(files, c, "package.json", package.as_str());
    let c = template_for(rules, "typescript_config", language) && language == Language::TypeScript;
    plan_when(files, c, "tsconfig.json", "{\n  \"compilerOptions\": {\n    \"target\": \"ES2022\",\n    \"module\": \"commonjs\",\n    \"outDir\": \"dist\",\n    \"strict\": true\n  },\n  \"include\": [\"src\"]\n}\n");
    let swift = templates::swift_manifest(name, project_type);
    let c = template_for(rules, "swift_manifest", language) && language == Language::Swift;
    plan_when(files, c, "Package.swift", swift.as_str());
    let mut python = text::owned("[project]\nname = \"");
    text::push_str(&mut python, name);
    text::push_str(&mut python, "\"\nversion = \"0.1.0\"\nrequires-python = \">=3.10\"\n");
    let c = template_for(rules, "python_manifest", language) && language == Language::Python;
    plan_when(files, c, "pyproject.toml", python.as_str());
}

fn add_optional_files(files: &mut Vec<GeneratedFile>, project: &ProjectInfo, rules: &InitRules, language: Language, options: &Options, name: &str)
    ensures
        file_views(final(files)@) == optional_files(file_views(old(files)@), *project, *rules, language, *options, name@),
{
    let noxfile = templates::noxfile(language);
    let c = options.noxfile && template_for(rules, "noxfile", language) && !project.has_noxfile;
    plan_when(files, c, "noxfile", noxfile.as_str());
    let flake = templates::flake(language, options.formatter);
    let c = options.nix && template_for(rules, "flake", language) && !project.has_flake;
    plan_when(files, c, "flake.nix", flake.as_str());
    let ghost before = file_views(files@);
    if options.formatter && project.formatter_configs.len() == 0 {
        match templates::formatter(language) {
            Some((path, contents)) => plan_file(files, path, contents),
            None => {},
        }
    }
    assert(file_views(files@) =~= before + formatter_files(*project, language, *options));
    let nix = templates::nix_formatter(language);
    let c = options.nix && options.formatter && !project.has_nix_formatter;
    plan_when(files, c, "nix/formatter.nix", nix.as_str());
    let readme = templates::readme(name, options.nix);
    let c = template_for(rules, "readme", language) && !project.has_readme;
    plan_when(files, c, "README.md", readme.as_str());
    let c = template_for(rules, "gitignore", language);
    plan_when(files, c, ".gitignore", templates::gitignore(language));
}

/// The files of a new project: the starter source when the project has
/// no sources outside test directories, the language's package files,
/// `nox.build`, and the optional `noxfile`, flake, formatter files,
/// `README.md` and `.gitignore`. Each is written only where no file is.
pub fn create_files(
    project: &ProjectInfo,
    rules: &InitRules,
    language: Language,
    project_type: ProjectType,
    options: &Options,
    name: &str,
) -> (r: Vec<GeneratedFile>)
    ensures
        exists|dirs: Seq<Seq<char>>, build: Seq<char>|
            include_list(dirs, *project, *rules) && build == build_text(*project, *rules, language, project_type, name@, dirs)
                && file_views(r@) == planned_files(*project, *rules, language, project_type, *options, name@, build),
{
    let mut files: Vec<GeneratedFile> = Vec::new();
    let mut all_tests = true;
    let mut i: usize = 0;
    while i < project.source_files.len()
        invariant
            i <= project.source_files@.len(),
            all_tests == forall|j: int| 0 <= j < i ==> in_rule_test_directory(#[trigger] project.source_files@[j]@, rules.conventions@),
        decreases project.source_files@.len() - i,
    {
        if !is_test_path_with_rules(project.source_files[i].as_str(), rules) {
            all_tests = false;
        }
        i = i + 1;
    }
    assert(file_views(files@) =~= Seq::empty());
    let (path, contents) = templates::starter(language, project_type);
    plan_when(&mut files, all_tests, path, contents);
    assert(file_views(files@) =~= when(all_tests, templates::starter_file(language, project_type).0, templates::starter_file(language, project_type).1));
    add_package_files(&mut files, rules, language, project_type, name);
    let build = render(project, rules, language, project_type, name);
    plan_file(&mut files, "nox.build", build.as_str());
    add_optional_files(&mut files, project, rules, language, options, name);
    proof {
        let dirs = choose|dirs: Seq<Seq<char>>| include_list(dirs, *project, *rules)
            && build@ == build_text(*project, *rules, language, project_type, name@, dirs);
        assert(file_views(files@) == planned_files(*project, *rules, language, project_type, *options, name@, build@));
        assert(include_list(dirs, *project, *rules) && build@ == build_text(*project, *rules, language, project_type, name@, dirs));
    }
    files
}

} // verus!
