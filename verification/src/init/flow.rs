//! The decisions of `nox init` around the scan: what it reports, which
//! name the project gets, and its messages.
use vstd::prelude::*;
use crate::text;
use crate::init::config::Options;
use crate::init::error::Error;
use crate::init::language::label_of;
use crate::init::project::ProjectInfo;

verus! {

/// The error for a path that is not a directory.
pub fn not_a_directory(root: &str) -> (r: Error)
    ensures
        r matches Error::InvalidDirectory(m) && m@ == "'"@ + root@ + "' is not a directory"@,
{
    let mut m = text::owned("'");
    text::push_str(&mut m, root);
    text::push_str(&mut m, "' is not a directory");
    Error::InvalidDirectory(m)
}

/// The project's name: `--name`, else the positional name, else the name
/// the scan found, else the root directory's name.
pub open spec fn chosen_name(options: Options, project: ProjectInfo, root_name: Option<Seq<char>>) -> Option<Seq<char>> {
    match options.name {
        Some(n) => Some(n@),
        None => match options.project_name {
            Some(n) => Some(n@),
            None => match project.name {
                Some(n) => Some(n@),
                None => root_name,
            },
        },
    }
}

/// The project's name, or the error asking for one.
pub fn project_name(options: &Options, project: &ProjectInfo, root_name: Option<&str>) -> (r: Result<String, Error>)
    ensures
        match chosen_name(*options, *project, match root_name { Some(n) => Some(n@), None => None }) {
            Some(n) => r matches Ok(s) && s@ == n,
            None => r matches Err(Error::Configuration(m)) && m@ == "could not infer a project name; use --name"@,
        },
{
    match &options.name {
        Some(n) => return Ok(text::owned(n.as_str())),
        None => {},
    }
    match &options.project_name {
        Some(n) => return Ok(text::owned(n.as_str())),
        None => {},
    }
    match &project.name {
        Some(n) => return Ok(text::owned(n.as_str())),
        None => {},
    }
    match root_name {
        Some(n) => Ok(text::owned(n)),
        None => Err(Error::Configuration(text::owned("could not infer a project name; use --name"))),
    }
}

/// A count in decimal followed by what it counts.
pub open spec fn counted(n: nat, what: Seq<char>) -> Seq<char> {
    text::decimal(n) + what
}

/// The `detected` and `found` lines of the scan's report: each language,
/// the package manifests, the sources, and what else was found.
pub open spec fn report_items(p: ProjectInfo) -> Seq<(Seq<char>, Seq<char>)> {
    p.languages@.map_values(|l| ("detected"@, label_of(l)))
        + (if p.package_manifests@.len() > 0 {
            seq![("detected"@, counted(p.package_manifests@.len(), " package manifest(s)"@))]
        } else {
            Seq::empty()
        })
        + seq![("found"@, counted(p.source_files@.len(), " source file(s)"@))]
        + (if p.has_tests { seq![("detected"@, "test suite"@)] } else { Seq::empty() })
        + (if p.has_git { seq![("detected"@, "Git repository"@)] } else { Seq::empty() })
        + (if p.has_flake { seq![("detected"@, "Nix flake"@)] } else { Seq::empty() })
        + (if p.has_nox_build { seq![("detected"@, "nox.build"@)] } else { Seq::empty() })
}

pub open spec fn pair_views(v: Seq<(String, String)>) -> Seq<(Seq<char>, Seq<char>)> {
    v.map_values(|x: (String, String)| (x.0@, x.1@))
}

fn report_when(v: &mut Vec<(String, String)>, c: bool, verb: &str, subject: &str)
    ensures
        pair_views(final(v)@) == pair_views(old(v)@) + (if c { seq![(verb@, subject@)] } else { Seq::empty() }),
{
    let ghost before = v@;
    if c {
        v.push((text::owned(verb), text::owned(subject)));
    }
    assert(pair_views(v@) =~= pair_views(before) + (if c { seq![(verb@, subject@)] } else { Seq::empty() }));
}

/// The scan's report, as `(verb, subject)` lines.
pub fn report(project: &ProjectInfo) -> (r: Vec<(String, String)>)
    ensures
        pair_views(r@) == report_items(*project),
{
    let mut v: Vec<(String, String)> = Vec::new();
    let mut i: usize = 0;
    while i < project.languages.len()
        invariant
            i <= project.languages@.len(),
            pair_views(v@) == project.languages@.take(i as int).map_values(|l| ("detected"@, label_of(l))),
        decreases project.languages@.len() - i,
    {
        let ghost before = v@;
        let label = project.languages[i].label();
        v.push((text::owned("detected"), text::owned(label)));
        assert(pair_views(v@) =~= pair_views(before).push(("detected"@, label@)));
        assert(project.languages@.take(i + 1).map_values(|l| ("detected"@, label_of(l))) =~= project.languages@.take(i as int).map_values(|l| ("detected"@, label_of(l))).push(("detected"@, label_of(project.languages@[i as int]))));
        i = i + 1;
    }
    assert(project.languages@.take(i as int) == project.languages@);
    let manifests = text::u64_to_string(project.package_manifests.len() as u64);
    let manifests = text::concat(manifests.as_str(), " package manifest(s)");
    report_when(&mut v, project.package_manifests.len() > 0, "detected", manifests.as_str());
    let sources = text::u64_to_string(project.source_files.len() as u64);
    let sources = text::concat(sources.as_str(), " source file(s)");
    report_when(&mut v, true, "found", sources.as_str());
    report_when(&mut v, project.has_tests, "detected", "test suite");
    report_when(&mut v, project.has_git, "detected", "Git repository");
    report_when(&mut v, project.has_flake, "detected", "Nix flake");
    report_when(&mut v, project.has_nox_build, "detected", "nox.build");
    assert(manifests@ == counted(project.package_manifests@.len(), " package manifest(s)"@));
    assert(sources@ == counted(project.source_files@.len(), " source file(s)"@));
    v
}

/// The message after a successful initialization.
pub fn success_message(name: &str) -> (r: String)
    ensures
        r@ == "Nox project '"@ + name@ + "' initialized successfully"@,
{
    let mut m = text::owned("Nox project '");
    text::push_str(&mut m, name);
    text::push_str(&mut m, "' initialized successfully");
    m
}

} // verus!
