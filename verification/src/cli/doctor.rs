//! `nox doctor` (and the deprecated `nox stat`): what is reported about a
//! project and its build directory.
use vstd::prelude::*;
use crate::build_system::state::BuildState;
use crate::domain::error::Error;
use crate::domain::model::Project;
use crate::noml::{debug_str, debug_string};
use crate::run::{find_project, project_names, names_joined, lemma_find_project};
use crate::text;

verus! {

/// One line of the report.
#[derive(Clone, Debug)]
pub enum ReportLine {
    /// A heading.
    Section(String),
    /// `KEY: VALUE`.
    KeyValue(String, String),
    /// `KEY: PATH`.
    PathValue(String, String),
    /// A warning.
    Warning(String),
    /// An empty line.
    Blank,
}

/// The project to report on: the named one (an error names the projects
/// when none has that name), the only one, or none when there are several
/// and none was named.
pub fn select_project(projects: &Vec<Project>, requested: Option<&str>) -> (r: Result<Option<usize>, Error>)
    ensures
        match requested {
            Some(name) => match find_project(projects@, name@) {
                Some(k) => r matches Ok(Some(i)) && i == k,
                None => r matches Err(Error::Config(m)) && m@ == "unknown project '"@ + name@
                    + "'; available projects: "@ + text::join(project_names(projects@), ", "@),
            },
            None => r == Ok::<Option<usize>, Error>(if projects@.len() == 1 { Some(0usize) } else { None }),
        },
{
    match requested {
        Some(name) => {
            let mut i: usize = 0;
            while i < projects.len()
                invariant
                    i <= projects@.len(),
                    requested == Some(name),
                    forall|j: int| 0 <= j < i ==> (#[trigger] projects@[j]).name@ != name@,
                decreases projects@.len() - i,
            {
                if text::same(projects[i].name.as_str(), name) {
                    proof {
                        lemma_find_project(projects@, name@);
                        assert(projects@[i as int].name@ == name@);
                        if let Some(c) = find_project(projects@, name@) {
                            if c < i {
                                assert(projects@[c].name@ != name@);
                            }
                            if c > i {
                                assert(projects@[i as int].name@ != name@);
                            }
                        }
                    }
                    return Ok(Some(i));
                }
                i = i + 1;
            }
            proof {
                lemma_find_project(projects@, name@);
            }
            let mut m = text::owned("unknown project '");
            text::push_str(&mut m, name);
            text::push_str(&mut m, "'; available projects: ");
            let names = names_joined(projects);
            text::push_str(&mut m, names.as_str());
            Err(Error::Config(m))
        },
        None => if projects.len() == 1 {
            Ok(Some(0))
        } else {
            Ok(None)
        },
    }
}

/// The project's name, with its version when it has one.
pub open spec fn label(p: Project) -> Seq<char> {
    match p.version {
        Some(v) => p.name@ + " "@ + v@,
        None => p.name@,
    }
}

pub fn project_label(project: &Project) -> (r: String)
    ensures
        r@ == label(*project),
{
    match &project.version {
        Some(v) => {
            let mut r = text::owned(project.name.as_str());
            text::push_str(&mut r, " ");
            text::push_str(&mut r, v.as_str());
            r
        },
        None => text::owned(project.name.as_str()),
    }
}

/// A list of strings as `{:?}` shows it.
pub open spec fn debug_list(items: Seq<Seq<char>>) -> Seq<char> {
    "["@ + text::join(items.map_values(|s: Seq<char>| debug_str(s)), ", "@) + "]"@
}

pub fn debug_strings(items: &Vec<String>) -> (r: String)
    ensures
        r@ == debug_list(text::views(items@)),
{
    let mut parts: Vec<String> = Vec::new();
    let mut i: usize = 0;
    while i < items.len()
        invariant
            i <= items@.len(),
            text::views(parts@) == text::views(items@).take(i as int).map_values(|s: Seq<char>| debug_str(s)),
        decreases items@.len() - i,
    {
        let d = debug_string(items[i].as_str());
        let ghost before = parts@;
        parts.push(d);
        assert(text::views(parts@) =~= text::views(before).push(debug_str(items@[i as int]@)));
        assert(text::views(items@).take(i + 1).map_values(|s: Seq<char>| debug_str(s)) =~= text::views(items@).take(i as int).map_values(|s: Seq<char>| debug_str(s)).push(debug_str(items@[i as int]@)));
        i = i + 1;
    }
    assert(text::views(items@).take(i as int) == text::views(items@));
    let body = text::join_strings(&parts, ", ");
    let mut r = text::owned("[");
    text::push_str(&mut r, body.as_str());
    text::push_str(&mut r, "]");
    r
}

/// The views of report lines.
pub open spec fn line_view(l: ReportLine) -> (u8, Seq<char>, Seq<char>) {
    match l {
        ReportLine::Section(s) => (0u8, s@, Seq::empty()),
        ReportLine::KeyValue(k, v) => (1u8, k@, v@),
        ReportLine::PathValue(k, v) => (2u8, k@, v@),
        ReportLine::Warning(w) => (3u8, w@, Seq::empty()),
        ReportLine::Blank => (4u8, Seq::empty(), Seq::empty()),
    }
}

pub open spec fn line_views(ls: Seq<ReportLine>) -> Seq<(u8, Seq<char>, Seq<char>)> {
    ls.map_values(|l: ReportLine| line_view(l))
}

/// The overview: the command, the project files, and the configured build
/// directory or a warning that none is.
pub open spec fn overview_lines(build_file: Seq<char>, state_file: Seq<char>, configured: Option<Seq<char>>) -> Seq<(u8, Seq<char>, Seq<char>)> {
    seq![(0u8, "overview"@, Seq::empty()), (1u8, "command"@, "doctor"@), (2u8, "nox.build"@, build_file),
        (2u8, "nox.state"@, state_file)] + match configured {
        Some(d) => seq![(2u8, "configured build dir"@, d)],
        None => seq![(3u8, "no project build directory is configured in nox.state"@, Seq::<char>::empty())],
    }
}

fn push_line(v: &mut Vec<ReportLine>, l: ReportLine)
    ensures
        line_views(final(v)@) == line_views(old(v)@).push(line_view(l)),
{
    let ghost before = v@;
    v.push(l);
    assert(line_views(v@) =~= line_views(before).push(line_view(l)));
}

pub fn overview(build_file: &str, state_file: &str, configured: Option<&str>) -> (r: Vec<ReportLine>)
    ensures
        line_views(r@) == overview_lines(build_file@, state_file@, match configured { Some(d) => Some(d@), None => None }),
{
    let mut v: Vec<ReportLine> = Vec::new();
    push_line(&mut v, ReportLine::Section(text::owned("overview")));
    push_line(&mut v, ReportLine::KeyValue(text::owned("command"), text::owned("doctor")));
    push_line(&mut v, ReportLine::PathValue(text::owned("nox.build"), text::owned(build_file)));
    push_line(&mut v, ReportLine::PathValue(text::owned("nox.state"), text::owned(state_file)));
    match configured {
        Some(d) => push_line(&mut v, ReportLine::PathValue(text::owned("configured build dir"), text::owned(d))),
        None => push_line(&mut v, ReportLine::Warning(text::owned("no project build directory is configured in nox.state"))),
    }
    assert(line_views(v@) =~= overview_lines(build_file@, state_file@, match configured { Some(d) => Some(d@), None => None }));
    v
}

/// The warning for a build directory that is not configured.
pub fn not_configured(build_dir: &str) -> (r: ReportLine)
    ensures
        line_view(r) == (3u8, "not configured: "@ + build_dir@, Seq::<char>::empty()),
{
    ReportLine::Warning(text::concat("not configured: ", build_dir))
}

/// A line when `c` holds.
pub open spec fn line_when(c: bool, l: (u8, Seq<char>, Seq<char>)) -> Seq<(u8, Seq<char>, Seq<char>)> {
    if c { seq![l] } else { Seq::empty() }
}

/// The project's part of the report: its name, description and license.
pub open spec fn project_head(p: Project) -> Seq<(u8, Seq<char>, Seq<char>)> {
    seq![(4u8, Seq::empty(), Seq::empty()), (0u8, "project"@, Seq::empty()), (1u8, "project"@, label(p))]
        + line_when(p.description@.len() > 0, (1u8, "description"@, p.description@))
        + line_when(p.license@.len() > 0, (1u8, "license"@, p.license@))
}

/// Its repository and website.
pub open spec fn project_links(p: Project) -> Seq<(u8, Seq<char>, Seq<char>)> {
    (match p.repository { Some(r) => seq![(1u8, "repository"@, r@)], None => Seq::empty() })
        + (match p.website { Some(w) => seq![(1u8, "website"@, w@)], None => Seq::empty() })
}

/// Its people, edition and dependency count.
pub open spec fn project_people(p: Project) -> Seq<(u8, Seq<char>, Seq<char>)> {
    line_when(p.authors@.len() > 0, (1u8, "authors"@, text::join(text::views(p.authors@), ", "@)))
        + line_when(p.maintainers@.len() > 0, (1u8, "maintainers"@, text::join(text::views(p.maintainers@), ", "@)))
        + seq![(1u8, "edition"@, p.edition@), (1u8, "dependencies"@, text::decimal(p.dependencies@.len()))]
}

/// The project's part of the report.
pub open spec fn project_part(p: Project) -> Seq<(u8, Seq<char>, Seq<char>)> {
    project_head(p) + project_links(p) + project_people(p)
}

/// The build directory's part of the report.
pub open spec fn build_part(s: BuildState, p: Project) -> Seq<(u8, Seq<char>, Seq<char>)> {
    seq![(4u8, Seq::empty(), Seq::empty()), (0u8, "build"@, Seq::empty()), (2u8, "root"@, s.root@),
        (2u8, "build directory"@, s.build_dir@), (1u8, "configuration"@, s.configuration@),
        (1u8, "compiler"@, s.compiler@), (1u8, "linker"@, s.linker@), (1u8, "archiver"@, s.archiver@),
        (1u8, "compile flags"@, debug_list(text::views(s.compile_flags@))),
        (1u8, "targets"@, text::decimal(p.targets@.len()))]
}

fn line_if(v: &mut Vec<ReportLine>, c: bool, l: ReportLine)
    ensures
        line_views(final(v)@) == line_views(old(v)@) + line_when(c, line_view(l)),
{
    let ghost before = v@;
    if c {
        v.push(l);
    }
    assert(line_views(v@) =~= line_views(before) + line_when(c, line_view(l)));
}

fn add_project_head(v: &mut Vec<ReportLine>, project: &Project)
    ensures
        line_views(final(v)@) == line_views(old(v)@) + project_head(*project),
{
    let ghost start = line_views(v@);
    push_line(v, ReportLine::Blank);
    push_line(v, ReportLine::Section(text::owned("project")));
    push_line(v, ReportLine::KeyValue(text::owned("project"), project_label(project)));
    line_if(v, text::chars_of(project.description.as_str()).len() > 0, ReportLine::KeyValue(text::owned("description"), text::owned(project.description.as_str())));
    line_if(v, text::chars_of(project.license.as_str()).len() > 0, ReportLine::KeyValue(text::owned("license"), text::owned(project.license.as_str())));
    assert(line_views(v@) =~= start + project_head(*project));
}

fn add_project_links(v: &mut Vec<ReportLine>, project: &Project)
    ensures
        line_views(final(v)@) == line_views(old(v)@) + project_links(*project),
{
    let ghost b = line_views(v@);
    match &project.repository {
        Some(r) => push_line(v, ReportLine::KeyValue(text::owned("repository"), text::owned(r.as_str()))),
        None => {},
    }
    let ghost c = line_views(v@);
    assert(c =~= b + match project.repository { Some(r) => seq![(1u8, "repository"@, r@)], None => Seq::empty() });
    match &project.website {
        Some(w) => push_line(v, ReportLine::KeyValue(text::owned("website"), text::owned(w.as_str()))),
        None => {},
    }
    assert(line_views(v@) =~= b + project_links(*project));
}

fn add_project_people(v: &mut Vec<ReportLine>, project: &Project)
    ensures
        line_views(final(v)@) == line_views(old(v)@) + project_people(*project),
{
    let ghost start = line_views(v@);
    let authors = text::join_strings(&project.authors, ", ");
    line_if(v, project.authors.len() > 0, ReportLine::KeyValue(text::owned("authors"), authors));
    let maintainers = text::join_strings(&project.maintainers, ", ");
    line_if(v, project.maintainers.len() > 0, ReportLine::KeyValue(text::owned("maintainers"), maintainers));
    push_line(v, ReportLine::KeyValue(text::owned("edition"), text::owned(project.edition.as_str())));
    push_line(v, ReportLine::KeyValue(text::owned("dependencies"), text::u64_to_string(project.dependencies.len() as u64)));
    assert(line_views(v@) =~= start + project_people(*project));
}

fn add_project_part(v: &mut Vec<ReportLine>, project: &Project)
    ensures
        line_views(final(v)@) == line_views(old(v)@) + project_part(*project),
{
    let ghost start = line_views(v@);
    add_project_head(v, project);
    add_project_links(v, project);
    add_project_people(v, project);
    assert(line_views(v@) =~= start + project_part(*project));
}

fn add_build_part(v: &mut Vec<ReportLine>, state: &BuildState, project: &Project)
    ensures
        line_views(final(v)@) == line_views(old(v)@) + build_part(*state, *project),
{
    let ghost start = line_views(v@);
    push_line(v, ReportLine::Blank);
    push_line(v, ReportLine::Section(text::owned("build")));
    push_line(v, ReportLine::PathValue(text::owned("root"), text::owned(state.root.as_str())));
    push_line(v, ReportLine::PathValue(text::owned("build directory"), text::owned(state.build_dir.as_str())));
    push_line(v, ReportLine::KeyValue(text::owned("configuration"), text::owned(state.configuration.as_str())));
    push_line(v, ReportLine::KeyValue(text::owned("compiler"), text::owned(state.compiler.as_str())));
    push_line(v, ReportLine::KeyValue(text::owned("linker"), text::owned(state.linker.as_str())));
    push_line(v, ReportLine::KeyValue(text::owned("archiver"), text::owned(state.archiver.as_str())));
    push_line(v, ReportLine::KeyValue(text::owned("compile flags"), debug_strings(&state.compile_flags)));
    push_line(v, ReportLine::KeyValue(text::owned("targets"), text::u64_to_string(project.targets.len() as u64)));
    assert(line_views(v@) =~= start + build_part(*state, *project));
}

/// The report on a configured project and its build directory.
pub fn project_report(state: &BuildState, project: &Project) -> (r: Vec<ReportLine>)
    ensures
        line_views(r@) == project_part(*project) + build_part(*state, *project),
{
    let mut v: Vec<ReportLine> = Vec::new();
    assert(line_views(v@) =~= Seq::empty());
    add_project_part(&mut v, project);
    add_build_part(&mut v, state, project);
    assert(line_views(v@) =~= project_part(*project) + build_part(*state, *project));
    v
}

/// The warning that `nox stat` prints before the report.
pub fn stat_deprecation() -> (r: &'static str)
    ensures
        r@ == "'nox stat' is deprecated; use 'nox doctor' instead"@,
{
    "'nox stat' is deprecated; use 'nox doctor' instead"
}

} // verus!
