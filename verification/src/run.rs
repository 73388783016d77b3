//! `nox run`: what to run for an input (the project, one of its targets,
//! or a single source file), which project and target, and how a source
//! file is run through its handler.
use vstd::prelude::*;
use crate::domain::error::Error;
use crate::domain::model::{Project, Target, TargetKind, TargetLanguage};
use crate::noml::{Value, comments_closed, debug_of, debug_text, parse, parsed_document, plain, value_text};
use crate::rules::base::{get, lookup, string_views};
use crate::paths;
use crate::text;
use crate::toolchain::RiderKind;

verus! {

/// Whether a target kind can be run.
pub open spec fn is_executable_kind(k: TargetKind) -> bool {
    k is Executable
}

pub fn is_executable(kind: TargetKind) -> (r: bool)
    ensures
        r == is_executable_kind(kind),
{
    match kind {
        TargetKind::Executable { .. } => true,
        _ => false,
    }
}

/// How many of the targets are executables.
pub open spec fn executable_count(ts: Seq<Target>) -> nat
    decreases ts.len(),
{
    if ts.len() == 0 {
        0
    } else {
        executable_count(ts.drop_last()) + if is_executable_kind(ts.last().kind) {
            1nat
        } else {
            0nat
        }
    }
}

/// The index of the first executable target.
pub open spec fn first_executable(ts: Seq<Target>) -> Option<int>
    decreases ts.len(),
{
    if ts.len() == 0 {
        None
    } else {
        match first_executable(ts.drop_last()) {
            Some(i) => Some(i),
            None => if is_executable_kind(ts.last().kind) {
                Some(ts.len() - 1)
            } else {
                None
            },
        }
    }
}

/// The target that `nox run` runs: the named one, which must be an
/// executable, or the only executable of the project.
pub fn select_target<'a>(project: &'a Project, requested: Option<&str>) -> (r: Result<&'a Target, Error>)
    ensures
        ({
            let ts = project.targets@;
            &&& requested is Some && crate::domain::model::find_target(ts, requested.unwrap()@) is None ==> (r matches Err(
                Error::Config(m),
            ) && m@ == "unknown runnable target '"@ + requested.unwrap()@ + "'"@)
            &&& requested is Some && crate::domain::model::find_target(ts, requested.unwrap()@) is Some
                && is_executable_kind(ts[crate::domain::model::find_target(ts, requested.unwrap()@).unwrap()].kind)
                ==> (r matches Ok(t) && *t == ts[crate::domain::model::find_target(ts, requested.unwrap()@).unwrap()])
            &&& requested is Some && crate::domain::model::find_target(ts, requested.unwrap()@) is Some
                && !is_executable_kind(ts[crate::domain::model::find_target(ts, requested.unwrap()@).unwrap()].kind)
                ==> (r matches Err(Error::Config(m)) && m@ == "target '"@ + requested.unwrap()@
                + "' is not runnable because it is a library"@)
            &&& requested is None && executable_count(ts) == 0 ==> (r matches Err(Error::Config(m)) && m@
                == "project has no runnable executable target"@)
            &&& requested is None && executable_count(ts) == 1 ==> (r matches Ok(t) && *t == ts[first_executable(
                ts,
            ).unwrap()])
            &&& requested is None && executable_count(ts) >= 2 ==> (r matches Err(Error::Config(m)) && m@
                == "there are "@ + text::decimal(executable_count(ts))
                + " executables in this project; use `nox targets` to list them and `nox run <name>` to run one"@)
        }),
{
    match requested {
        Some(name) => {
            let target = match project.target(name) {
                Some(t) => t,
                None => {
                    let mut m = text::owned("unknown runnable target '");
                    text::push_str(&mut m, name);
                    text::push_str(&mut m, "'");
                    return Err(Error::Config(m));
                },
            };
            if !is_executable(target.kind) {
                let mut m = text::owned("target '");
                text::push_str(&mut m, name);
                text::push_str(&mut m, "' is not runnable because it is a library");
                return Err(Error::Config(m));
            }
            proof {
                let i = crate::domain::model::find_target(project.targets@, name@).unwrap();
                assert(*target == project.targets@[i]);
                assert(is_executable_kind(project.targets@[i].kind));
            }
            Ok(target)
        },
        None => {
            let mut count: u64 = 0;
            let mut first: Option<usize> = None;
            let mut i: usize = 0;
            while i < project.targets.len()
                invariant
                    i <= project.targets@.len(),
                    count == executable_count(project.targets@.take(i as int)),
                    count <= i,
                    first matches Some(k) ==> first_executable(project.targets@.take(i as int)) == Some(k as int),
                    first is None ==> first_executable(project.targets@.take(i as int)) is None,
                    first matches Some(k) ==> k < i,
                    (first is None) == (count == 0),
                decreases project.targets@.len() - i,
            {
                assert(project.targets@.take(i + 1).drop_last() == project.targets@.take(i as int));
                if is_executable(project.targets[i].kind) {
                    if first.is_none() {
                        first = Some(i);
                    }
                    count = count + 1;
                }
                i = i + 1;
            }
            assert(project.targets@.take(project.targets@.len() as int) == project.targets@);
            if count == 0 {
                Err(Error::Config(text::owned("project has no runnable executable target")))
            } else if count == 1 {
                match first {
                    Some(k) => Ok(&project.targets[k]),
                    None => Err(Error::Config(text::owned("project has no runnable executable target"))),
                }
            } else {
                let mut m = text::owned("there are ");
                let digits = text::u64_to_string(count);
                text::push_str(&mut m, digits.as_str());
                text::push_str(
                    &mut m,
                    " executables in this project; use `nox targets` to list them and `nox run <name>` to run one",
                );
                Err(Error::Config(m))
            }
        },
    }
}

/// The index of the first project named `name`.
pub open spec fn find_project(ps: Seq<Project>, name: Seq<char>) -> Option<int>
    decreases ps.len(),
{
    if ps.len() == 0 {
        None
    } else {
        match find_project(ps.drop_last(), name) {
            Some(i) => Some(i),
            None => if ps.last().name@ == name {
                Some(ps.len() - 1)
            } else {
                None
            },
        }
    }
}

/// The first project named `name` is the one `find_project` gives.
pub proof fn lemma_find_project(ps: Seq<Project>, name: Seq<char>)
    ensures
        find_project(ps, name) matches Some(i) ==> 0 <= i < ps.len() && ps[i].name@ == name
            && forall|j: int| 0 <= j < i ==> (#[trigger] ps[j]).name@ != name,
        find_project(ps, name) is None ==> forall|j: int| 0 <= j < ps.len() ==> (#[trigger] ps[j]).name@ != name,
    decreases ps.len(),
{
    if ps.len() > 0 {
        lemma_find_project(ps.drop_last(), name);
        assert forall|j: int| 0 <= j < ps.len() - 1 implies ps.drop_last()[j] == ps[j] by {}
    }
}

/// The names of projects joined with `, `.
pub open spec fn project_names(ps: Seq<Project>) -> Seq<Seq<char>> {
    ps.map_values(|p: Project| p.name@)
}

pub fn names_joined(projects: &Vec<Project>) -> (r: String)
    ensures
        r@ == text::join(project_names(projects@), ", "@),
{
    let mut names: Vec<String> = Vec::new();
    let mut i: usize = 0;
    while i < projects.len()
        invariant
            i <= projects@.len(),
            text::views(names@) == project_names(projects@.take(i as int)),
        decreases projects@.len() - i,
    {
        let ghost before = names@;
        names.push(projects[i].name.clone());
        assert(text::views(names@) == text::views(before).push(projects@[i as int].name@));
        assert(project_names(projects@.take(i + 1)) == project_names(projects@.take(i as int)).push(projects@[i as int].name@));
        i = i + 1;
    }
    assert(projects@.take(projects@.len() as int) == projects@);
    text::join_strings(&names, ", ")
}

/// The project that `nox run` (or `nox install`) works on: the named one;
/// with a single project, that one whatever the name; `None` when several
/// projects exist and none was named (the caller then lists them).
pub fn select_project(projects: &Vec<Project>, requested: Option<&str>, command: &str) -> (r: Result<Option<usize>, Error>)
    ensures
        ({
            let ps = projects@;
            &&& requested is Some && find_project(ps, requested.unwrap()@) is Some ==> (r matches Ok(Some(k)) && k
                == find_project(ps, requested.unwrap()@).unwrap())
            &&& requested is Some && find_project(ps, requested.unwrap()@) is None && ps.len() == 1 ==> r
                == Ok::<Option<usize>, Error>(Some(0))
            &&& requested is Some && find_project(ps, requested.unwrap()@) is None && ps.len() != 1 ==> (r matches Err(
                Error::Config(m),
            ) && m@ == "unknown project '"@ + requested.unwrap()@ + "'; available projects: "@ + text::join(
                project_names(ps),
                ", "@,
            ) + ". Use `nox "@ + command@ + " <project>`"@)
            &&& requested is None && ps.len() == 1 ==> r == Ok::<Option<usize>, Error>(Some(0))
            &&& requested is None && ps.len() != 1 ==> r == Ok::<Option<usize>, Error>(None)
        }),
{
    match requested {
        Some(name) => {
            let mut i: usize = 0;
            while i < projects.len()
                invariant
                    i <= projects@.len(),
                    requested == Some(name),
                    find_project(projects@.take(i as int), name@) is None,
                decreases projects@.len() - i,
            {
                assert(projects@.take(i + 1).drop_last() == projects@.take(i as int));
                if text::same(projects[i].name.as_str(), name) {
                    proof {
                        lemma_find_project_prefix(projects@, name@, i + 1);
                    }
                    return Ok(Some(i));
                }
                i = i + 1;
            }
            assert(projects@.take(projects@.len() as int) == projects@);
            if projects.len() == 1 {
                return Ok(Some(0));
            }
            let mut m = text::owned("unknown project '");
            text::push_str(&mut m, name);
            text::push_str(&mut m, "'; available projects: ");
            let names = names_joined(projects);
            text::push_str(&mut m, names.as_str());
            text::push_str(&mut m, ". Use `nox ");
            text::push_str(&mut m, command);
            text::push_str(&mut m, " <project>`");
            Err(Error::Config(m))
        },
        None => {
            if projects.len() == 1 {
                Ok(Some(0))
            } else {
                Ok(None)
            }
        },
    }
}

proof fn lemma_find_project_prefix(ps: Seq<Project>, name: Seq<char>, n: int)
    requires
        0 < n <= ps.len(),
        find_project(ps.take(n - 1), name) is None,
        ps[n - 1].name@ == name,
    ensures
        find_project(ps, name) == Some(n - 1),
    decreases ps.len(),
{
    assert(ps.take(n).drop_last() == ps.take(n - 1));
    if n < ps.len() {
        assert(ps.drop_last().take(n - 1) == ps.take(n - 1));
        assert(ps.drop_last()[n - 1] == ps[n - 1]);
        lemma_find_project_prefix(ps.drop_last(), name, n);
    } else {
        assert(ps.take(n) == ps);
    }
}

/// `  PROJECT: TARGET (nox COMMAND PROJECT)` for each executable target.
pub open spec fn executable_lines(ps: Seq<Project>, command: Seq<char>) -> Seq<Seq<char>>
    decreases ps.len(),
{
    if ps.len() == 0 {
        Seq::empty()
    } else {
        executable_lines(ps.drop_last(), command) + project_lines(ps.last(), ps.last().targets@, command)
    }
}

pub open spec fn project_lines(p: Project, ts: Seq<Target>, command: Seq<char>) -> Seq<Seq<char>>
    decreases ts.len(),
{
    if ts.len() == 0 {
        Seq::empty()
    } else {
        let rest = project_lines(p, ts.drop_last(), command);
        if is_executable_kind(ts.last().kind) {
            rest.push("  "@ + p.name@ + ": "@ + ts.last().name@ + " (nox "@ + command + " "@ + p.name@ + ")"@)
        } else {
            rest
        }
    }
}

/// What is printed when several projects exist and none was named.
pub fn project_selection_message(projects: &Vec<Project>, command: &str) -> (r: String)
    ensures
        r@ == "nox.build defines "@ + text::decimal(projects@.len()) + " projects and "@ + text::decimal(
            executable_lines(projects@, command@).len(),
        ) + " executables; specify a project with `nox "@ + command@ + " <project>`:\n"@ + text::join(
            executable_lines(projects@, command@),
            "\n"@,
        ),
{
    let mut lines: Vec<String> = Vec::new();
    let mut p: usize = 0;
    while p < projects.len()
        invariant
            p <= projects@.len(),
            text::views(lines@) == executable_lines(projects@.take(p as int), command@),
        decreases projects@.len() - p,
    {
        let project = &projects[p];
        let ghost start = lines@;
        let mut t: usize = 0;
        while t < project.targets.len()
            invariant
                t <= project.targets@.len(),
                p < projects@.len(),
                *project == projects@[p as int],
                text::views(lines@) == text::views(start) + project_lines(*project, project.targets@.take(t as int), command@),
            decreases project.targets@.len() - t,
        {
            assert(project.targets@.take(t + 1).drop_last() == project.targets@.take(t as int));
            let target = &project.targets[t];
            if is_executable(target.kind) {
                let mut line = text::owned("  ");
                text::push_str(&mut line, project.name.as_str());
                text::push_str(&mut line, ": ");
                text::push_str(&mut line, target.name.as_str());
                text::push_str(&mut line, " (nox ");
                text::push_str(&mut line, command);
                text::push_str(&mut line, " ");
                text::push_str(&mut line, project.name.as_str());
                text::push_str(&mut line, ")");
                let ghost before = lines@;
                lines.push(line);
                assert(text::views(lines@) == text::views(before).push(line@));
            }
            t = t + 1;
        }
        assert(project.targets@.take(project.targets@.len() as int) == project.targets@);
        assert(projects@.take(p + 1).drop_last() == projects@.take(p as int));
        p = p + 1;
    }
    assert(projects@.take(projects@.len() as int) == projects@);
    let mut m = text::owned("nox.build defines ");
    let n_projects = text::u64_to_string(projects.len() as u64);
    text::push_str(&mut m, n_projects.as_str());
    text::push_str(&mut m, " projects and ");
    let n_lines = text::u64_to_string(lines.len() as u64);
    text::push_str(&mut m, n_lines.as_str());
    text::push_str(&mut m, " executables; specify a project with `nox ");
    text::push_str(&mut m, command);
    text::push_str(&mut m, " <project>`:\n");
    let joined = text::join_strings(&lines, "\n");
    text::push_str(&mut m, joined.as_str());
    m
}

/// What `nox run INPUT` runs.
#[derive(Debug)]
pub enum RunChoice {
    /// The project, or the named target or project of it.
    Project(Option<String>),
    /// A single source file, by its path.
    File(String),
}

/// The path that `nox run INPUT` looks at: `INPUT` (or `.`) under the
/// project root.
pub fn run_path(input: Option<&str>, project_root: &str) -> (r: String)
    ensures
        r@ == paths::join(project_root@, match input {
            Some(i) => i@,
            None => "."@,
        }),
{
    match input {
        Some(i) => paths::join_text(project_root, i),
        None => paths::join_text(project_root, "."),
    }
}

/// Decides what `nox run INPUT` runs, given what is at `run_path`: a
/// directory runs the project when the input is `.` or the root has no
/// `nox.build`; a file runs as a source file; an input that looks like a
/// path (has a separator or an extension) and does not exist is an error;
/// anything else names a target or project.
pub fn execute(
    input: Option<&str>,
    path: &str,
    path_is_dir: bool,
    path_is_file: bool,
    root_has_build_file: bool,
    separator: char,
) -> (r: Result<RunChoice, Error>)
    ensures
        ({
            let given = match input {
                Some(i) => i@,
                None => "."@,
            };
            &&& path_is_dir && (given == "."@ || !root_has_build_file) ==> (r matches Ok(RunChoice::Project(None)))
            &&& !(path_is_dir && (given == "."@ || !root_has_build_file)) && path_is_file ==> (r matches Ok(
                RunChoice::File(p),
            ) && p@ == path@)
            &&& !(path_is_dir && (given == "."@ || !root_has_build_file)) && !path_is_file && given != "."@
                && (given.contains(separator) || paths::extension(given) is Some) ==> (r matches Err(Error::Config(m))
                && m@ == "run path '"@ + path@ + "' does not exist"@)
            &&& !(path_is_dir && (given == "."@ || !root_has_build_file)) && !path_is_file && !(given != "."@
                && (given.contains(separator) || paths::extension(given) is Some)) ==> (r matches Ok(
                RunChoice::Project(Some(t)),
            ) && t@ == given)
        }),
{
    let given = match input {
        Some(i) => text::owned(i),
        None => text::owned("."),
    };
    let is_dot = text::same(given.as_str(), ".");
    if path_is_dir && (is_dot || !root_has_build_file) {
        return Ok(RunChoice::Project(None));
    }
    if path_is_file {
        return Ok(RunChoice::File(text::owned(path)));
    }
    let cs = text::chars_of(given.as_str());
    let has_separator = text::find_char(&cs, separator, 0) < cs.len();
    proof {
        text::lemma_char_end(cs@, separator, 0);
        if given@.contains(separator) {
            let k = choose|k: int| 0 <= k < given@.len() && given@[k] == separator;
            assert(text::char_end(cs@, separator, 0) <= k);
        }
    }
    let has_extension = paths::extension_of(given.as_str()).is_some();
    if !is_dot && (has_separator || has_extension) {
        let mut m = text::owned("run path '");
        text::push_str(&mut m, path);
        text::push_str(&mut m, "' does not exist");
        return Err(Error::Config(m));
    }
    Ok(RunChoice::Project(Some(given)))
}

/// The program a project target's artifact runs under, by the Rider of
/// its first source: the candidates to look for, the arguments before the
/// artifact, and the dependency to name when none is found.
pub fn artifact_runner(kind: Option<RiderKind>, windows: bool) -> (r: Option<(Vec<String>, Vec<String>, String)>)
    ensures
        kind == Some(RiderKind::Python) ==> (r matches Some((c, a, d)) && text::views(c@) == seq!["python3"@, "python"@]
            && a@.len() == 0 && d@ == "Python"@),
        (kind is None || !(kind == Some(RiderKind::Java) || kind == Some(RiderKind::Kotlin) || kind == Some(
            RiderKind::Python,
        ) || kind == Some(RiderKind::JavaScript) || kind == Some(RiderKind::TypeScript))) && !windows ==> r is None,
{
    match kind {
        Some(RiderKind::Java) | Some(RiderKind::Kotlin) => {
            let mut c: Vec<String> = Vec::new();
            c.push(text::owned("java"));
            let mut a: Vec<String> = Vec::new();
            a.push(text::owned("-jar"));
            Some((c, a, text::owned("the Java runtime (required to run this project target)")))
        },
        Some(RiderKind::Python) => {
            let mut c: Vec<String> = Vec::new();
            c.push(text::owned("python3"));
            c.push(text::owned("python"));
            assert(text::views(c@) == seq!["python3"@, "python"@]);
            Some((c, Vec::new(), text::owned("Python")))
        },
        Some(RiderKind::JavaScript) | Some(RiderKind::TypeScript) => {
            let mut c: Vec<String> = Vec::new();
            c.push(text::owned("node"));
            Some((c, Vec::new(), text::owned("Node.js")))
        },
        _ => {
            if windows {
                let mut c: Vec<String> = Vec::new();
                c.push(text::owned("cmd"));
                let mut a: Vec<String> = Vec::new();
                a.push(text::owned("/C"));
                Some((c, a, text::owned("cmd")))
            } else {
                None
            }
        },
    }
}

/// The message for a run whose tool is missing.
pub fn missing_runtime_message(source: &str, programs: &Vec<String>, dependency: &str) -> (r: String)
    ensures
        r@ == "cannot run '"@ + source@ + "': required dependency '"@ + text::join(text::views(programs@), ", "@)
            + "' ("@ + dependency@ + ") is not installed or not available on PATH"@,
{
    let mut m = text::owned("cannot run '");
    text::push_str(&mut m, source);
    text::push_str(&mut m, "': required dependency '");
    let names = text::join_strings(programs, ", ");
    text::push_str(&mut m, names.as_str());
    text::push_str(&mut m, "' (");
    text::push_str(&mut m, dependency);
    text::push_str(&mut m, ") is not installed or not available on PATH");
    m
}

/// The compiler arguments of a compile-and-run handler with `{source}` and
/// `{output}` filled in.
pub fn compile_arguments(arguments: &Vec<String>, source: &str, output: &str) -> (r: Vec<String>)
    ensures
        r@.len() == arguments@.len(),
        forall|i: int|
            0 <= i < r@.len() ==> (#[trigger] r@[i])@ == text::replace(
                text::replace(arguments@[i]@, "{source}"@, source@),
                "{output}"@,
                output@,
            ),
{
    proof {
        reveal_strlit("{source}");
        reveal_strlit("{output}");
    }
    let mut out: Vec<String> = Vec::new();
    let mut i: usize = 0;
    while i < arguments.len()
        invariant
            i <= arguments@.len(),
            out@.len() == i,
            "{source}"@.len() > 0,
            "{output}"@.len() > 0,
            forall|k: int|
                0 <= k < i ==> (#[trigger] out@[k])@ == text::replace(
                    text::replace(arguments@[k]@, "{source}"@, source@),
                    "{output}"@,
                    output@,
                ),
        decreases arguments@.len() - i,
    {
        let a = text::replace_str(arguments[i].as_str(), "{source}", source);
        let b = text::replace_str(a.as_str(), "{output}", output);
        out.push(b);
        i = i + 1;
    }
    out
}

/// Where a compile-and-run handler puts its executable: a fresh directory
/// under the temporary directory, named by process and time, holding the
/// source's stem (`.exe` on Windows).
pub struct TemporaryArtifact {
    pub directory: String,
    pub executable: String,
}

impl TemporaryArtifact {
    /// The paths for a source file.
    pub fn at(temp_dir: &str, process: u32, stamp: u64, source: &str, windows: bool) -> (r: TemporaryArtifact)
        ensures
            r.directory@ == paths::join(paths::join(paths::join(temp_dir@, "nox"@), "run"@), text::decimal(process as nat) + "-"@ + text::decimal(stamp as nat)),
            r.executable@ == paths::join(r.directory@, (match paths::file_stem(source@) {
                Some(n) => n,
                None => "program"@,
            }) + (if windows { ".exe"@ } else { Seq::empty() })),
    {
        let base = paths::join_text(temp_dir, "nox");
        let run_dir = paths::join_text(base.as_str(), "run");
        let mut leaf = text::u64_to_string(process as u64);
        text::push_str(&mut leaf, "-");
        let s = text::u64_to_string(stamp);
        text::push_str(&mut leaf, s.as_str());
        let directory = paths::join_text(run_dir.as_str(), leaf.as_str());
        let name = match paths::file_stem_of(source) {
            Some(n) => n,
            None => text::owned("program"),
        };
        let file = if windows {
            text::concat(name.as_str(), ".exe")
        } else {
            name
        };
        assert(file@ == name@ + (if windows { ".exe"@ } else { Seq::empty() }));
        let executable = paths::join_text(directory.as_str(), file.as_str());
        TemporaryArtifact { directory, executable }
    }

    /// The executable's path.
    pub fn path(&self) -> (r: &str)
        ensures
            r@ == self.executable@,
    {
        self.executable.as_str()
    }
}

// ------------------------------------------------------------ handlers

/// How a handler runs a source file.
#[derive(Clone, Copy, Debug, PartialEq, Eq, Structural)]
pub enum HandlerMode {
    /// Through an interpreter or runtime.
    Runtime,
    /// Compiled to a temporary executable first.
    Compile,
    /// Registered, but not runnable yet.
    Unsupported,
}

/// A run handler: the language, the extensions it takes, how it runs,
/// the tools it looks for and their arguments, and the dependency named
/// when none is found.
pub struct HandlerDefinition {
    pub language: String,
    pub extensions: Vec<String>,
    pub mode: HandlerMode,
    pub tools: Vec<String>,
    pub arguments: Vec<String>,
    pub dependency: String,
}

fn field_error(key: &str, problem: &str) -> (e: Error)
    ensures
        e matches Error::Config(m) && m@ == "invalid run handler field '"@ + key@ + "': "@ + problem@,
{
    let mut m = text::owned("invalid run handler field '");
    text::push_str(&mut m, key);
    text::push_str(&mut m, "': ");
    text::push_str(&mut m, problem);
    Error::Config(m)
}

fn field_error_value(key: &str, problem: &str, value: &Value) -> (e: Error)
    ensures
        e matches Error::Config(m) && m@ == "invalid run handler field '"@ + key@ + "': "@ + problem@ + debug_of(*value),
{
    let mut m = text::owned("invalid run handler field '");
    text::push_str(&mut m, key);
    text::push_str(&mut m, "': ");
    text::push_str(&mut m, problem);
    let d = debug_text(value);
    text::push_str(&mut m, d.as_str());
    Error::Config(m)
}

/// The message of a handler field that cannot be read.
pub open spec fn field_message(key: Seq<char>, problem: Seq<char>) -> Seq<char> {
    "invalid run handler field '"@ + key + "': "@ + problem
}

/// A string field of a handler.
pub open spec fn text_field(fields: Seq<(String, Value)>, key: Seq<char>) -> Result<Seq<char>, Seq<char>> {
    match lookup(fields, key) {
        Some(i) => match fields[i].1 {
            Value::String(s) => Ok(s@),
            other => Err(field_message(key, "expected string, got "@ + debug_of(other))),
        },
        None => Err(field_message(key, "missing value"@)),
    }
}

/// The index of the first value from `i` on that is not a string.
pub open spec fn first_non_string(vs: Seq<Value>, i: int) -> Option<int>
    decreases vs.len() - i,
{
    if i < 0 || i >= vs.len() {
        None
    } else if !(vs[i] is String) {
        Some(i)
    } else {
        first_non_string(vs, i + 1)
    }
}

/// A string-list field of a handler.
pub open spec fn list_field(fields: Seq<(String, Value)>, key: Seq<char>) -> Result<Seq<Seq<char>>, Seq<char>> {
    match lookup(fields, key) {
        Some(i) => match fields[i].1 {
            Value::Array(vs) => match first_non_string(vs@, 0) {
                None => Ok(string_views(vs@)),
                Some(k) => Err(field_message(key, "expected string list, got "@ + debug_of(vs@[k]))),
            },
            other => Err(field_message(key, "expected array, got "@ + debug_of(other))),
        },
        None => Err(field_message(key, "missing value"@)),
    }
}

/// The execution mode field of a handler.
pub open spec fn mode_of(fields: Seq<(String, Value)>, key: Seq<char>) -> Result<HandlerMode, Seq<char>> {
    match lookup(fields, key) {
        Some(i) => match fields[i].1 {
            Value::String(s) => if s@ == "runtime"@ {
                Ok(HandlerMode::Runtime)
            } else if s@ == "compile"@ {
                Ok(HandlerMode::Compile)
            } else if s@ == "unsupported"@ {
                Ok(HandlerMode::Unsupported)
            } else {
                Err(field_message(key, "unsupported mode '"@ + s@ + "'"@))
            },
            other => Err(field_message(key, "expected string, got "@ + debug_of(other))),
        },
        None => Err(field_message(key, "missing value"@)),
    }
}

fn string_field(fields: &Vec<(String, Value)>, key: &str) -> (r: Result<String, Error>)
    ensures
        match text_field(fields@, key@) {
            Ok(t) => r matches Ok(s) && s@ == t,
            Err(m) => r matches Err(Error::Config(x)) && x@ == m,
        },
{
    match get(fields, key) {
        Some(Value::String(value)) => Ok(value.clone()),
        Some(other) => Err(field_error_value(key, "expected string, got ", other)),
        None => Err(field_error(key, "missing value")),
    }
}

fn string_list_field(fields: &Vec<(String, Value)>, key: &str) -> (r: Result<Vec<String>, Error>)
    ensures
        match list_field(fields@, key@) {
            Ok(t) => r matches Ok(l) && text::views(l@) == t,
            Err(m) => r matches Err(Error::Config(x)) && x@ == m,
        },
{
    match get(fields, key) {
        Some(Value::Array(values)) => {
            let ghost expected = match first_non_string(values@, 0) {
                None => Ok(string_views(values@)),
                Some(k) => Err(field_message(key@, "expected string list, got "@ + debug_of(values@[k]))),
            };
            assert(list_field(fields@, key@) == expected);
            let mut out: Vec<String> = Vec::new();
            let mut i: usize = 0;
            while i < values.len()
                invariant
                    i <= values@.len(),
                    list_field(fields@, key@) == expected,
                    expected == match first_non_string(values@, 0) {
                        None => Ok(string_views(values@)),
                        Some(k) => Err(field_message(key@, "expected string list, got "@ + debug_of(values@[k]))),
                    },
                    first_non_string(values@, 0) == first_non_string(values@, i as int),
                    text::views(out@) == string_views(values@).take(i as int),
                decreases values@.len() - i,
            {
                match &values[i] {
                    Value::String(part) => {
                        let ghost before = out@;
                        out.push(part.clone());
                        assert(text::views(out@) =~= text::views(before).push(part@));
                        assert(string_views(values@).take(i + 1) =~= string_views(values@).take(i as int).push(part@));
                    },
                    other => {
                        return Err(field_error_value(key, "expected string list, got ", other));
                    },
                }
                i = i + 1;
            }
            assert(string_views(values@).take(i as int) =~= string_views(values@));
            Ok(out)
        },
        Some(other) => Err(field_error_value(key, "expected array, got ", other)),
        None => Err(field_error(key, "missing value")),
    }
}

fn mode_field(fields: &Vec<(String, Value)>, key: &str) -> (r: Result<HandlerMode, Error>)
    ensures
        match mode_of(fields@, key@) {
            Ok(m) => r == Ok::<HandlerMode, Error>(m),
            Err(m) => r matches Err(Error::Config(x)) && x@ == m,
        },
{
    proof {
        reveal_strlit("runtime");
        reveal_strlit("compile");
        reveal_strlit("unsupported");
    }
    match get(fields, key) {
        Some(Value::String(value)) => {
            if text::same(value.as_str(), "runtime") {
                Ok(HandlerMode::Runtime)
            } else if text::same(value.as_str(), "compile") {
                Ok(HandlerMode::Compile)
            } else if text::same(value.as_str(), "unsupported") {
                Ok(HandlerMode::Unsupported)
            } else {
                let mut problem = text::owned("unsupported mode '");
                text::push_str(&mut problem, value.as_str());
                text::push_str(&mut problem, "'");
                Err(field_error(key, problem.as_str()))
            }
        },
        Some(other) => Err(field_error_value(key, "expected string, got ", other)),
        None => Err(field_error(key, "missing value")),
    }
}

/// A handler as text: its language, extensions, mode, tools, arguments
/// and dependency.
pub open spec fn handler_text(h: HandlerDefinition) -> (Seq<char>, Seq<Seq<char>>, HandlerMode, Seq<Seq<char>>, Seq<Seq<char>>, Seq<char>) {
    (h.language@, text::views(h.extensions@), h.mode, text::views(h.tools@), text::views(h.arguments@), h.dependency@)
}

pub open spec fn handler_texts(hs: Seq<HandlerDefinition>) -> Seq<(Seq<char>, Seq<Seq<char>>, HandlerMode, Seq<Seq<char>>, Seq<Seq<char>>, Seq<char>)> {
    hs.map_values(|h: HandlerDefinition| handler_text(h))
}

/// The handler that a `handler` entry's fields define; the first field
/// that cannot be read is the error.
pub open spec fn entry_handler(fields: Seq<(String, Value)>) -> Result<(Seq<char>, Seq<Seq<char>>, HandlerMode, Seq<Seq<char>>, Seq<Seq<char>>, Seq<char>), Seq<char>> {
    match text_field(fields, "language"@) {
        Err(m) => Err(m),
        Ok(language) => match list_field(fields, "extensions"@) {
            Err(m) => Err(m),
            Ok(extensions) => match mode_of(fields, "mode"@) {
                Err(m) => Err(m),
                Ok(mode) => match list_field(fields, "tools"@) {
                    Err(m) => Err(m),
                    Ok(tools) => match list_field(fields, "arguments"@) {
                        Err(m) => Err(m),
                        Ok(arguments) => match text_field(fields, "dependency"@) {
                            Err(m) => Err(m),
                            Ok(dependency) => Ok((language, extensions, mode, tools, arguments, dependency)),
                        },
                    },
                },
            },
        },
    }
}

/// The handlers of a ruleset's entries from the `i`th on, after `acc`.
pub open spec fn entry_handlers(
    es: Seq<crate::noml::Entry>,
    i: int,
    acc: Seq<(Seq<char>, Seq<Seq<char>>, HandlerMode, Seq<Seq<char>>, Seq<Seq<char>>, Seq<char>)>,
) -> Result<Seq<(Seq<char>, Seq<Seq<char>>, HandlerMode, Seq<Seq<char>>, Seq<Seq<char>>, Seq<char>)>, Seq<char>>
    decreases es.len() - i,
{
    if i < 0 || i >= es.len() {
        Ok(acc)
    } else if es[i].entry_type@ == "handler"@ {
        match entry_handler(es[i].properties@) {
            Ok(h) => entry_handlers(es, i + 1, acc.push(h)),
            Err(m) => Err(m),
        }
    } else {
        entry_handlers(es, i + 1, acc)
    }
}

/// The handlers that a registry document defines: the `handler` entries of
/// its root ruleset.
pub open spec fn document_handlers(doc: Value) -> Result<Seq<(Seq<char>, Seq<Seq<char>>, HandlerMode, Seq<Seq<char>>, Seq<Seq<char>>, Seq<char>)>, Seq<char>> {
    match doc {
        Value::Ruleset(rs) => entry_handlers(rs.entries@, 0, Seq::empty()),
        other => Err("invalid run handler registry: expected ruleset root, got "@ + debug_of(other)),
    }
}

/// Reads the handlers of a parsed registry.
fn handlers_of_document(document: &Value) -> (r: Result<Vec<HandlerDefinition>, Error>)
    ensures
        match document_handlers(*document) {
            Ok(hs) => r matches Ok(v) && handler_texts(v@) == hs,
            Err(m) => r matches Err(Error::Config(x)) && x@ == m,
        },
{
    proof {
        reveal_strlit("handler");
    }
    let ruleset = match document {
        Value::Ruleset(ruleset) => ruleset,
        other => {
            let mut m = text::owned("invalid run handler registry: expected ruleset root, got ");
            let d = debug_text(other);
            text::push_str(&mut m, d.as_str());
            return Err(Error::Config(m));
        },
    };
    let mut handlers: Vec<HandlerDefinition> = Vec::new();
    let mut i: usize = 0;
    assert(handler_texts(handlers@) =~= Seq::empty());
    while i < ruleset.entries.len()
        invariant
            i <= ruleset.entries@.len(),
            *document == Value::Ruleset(*ruleset),
            document_handlers(*document) == entry_handlers(ruleset.entries@, i as int, handler_texts(handlers@)),
        decreases ruleset.entries@.len() - i,
    {
        let entry = &ruleset.entries[i];
        if text::same(entry.entry_type.as_str(), "handler") {
            let fields = &entry.properties;
            let language = string_field(fields, "language")?;
            let extensions = string_list_field(fields, "extensions")?;
            let mode = mode_field(fields, "mode")?;
            let tools = string_list_field(fields, "tools")?;
            let arguments = string_list_field(fields, "arguments")?;
            let dependency = string_field(fields, "dependency")?;
            let ghost before = handlers@;
            handlers.push(HandlerDefinition { language, extensions, mode, tools, arguments, dependency });
            assert(handler_texts(handlers@) =~= handler_texts(before).push(handler_text(handlers@.last())));
        }
        i = i + 1;
    }
    Ok(handlers)
}

/// The handlers registered for `nox run FILE`: those that the registry's
/// parsed document defines.
pub fn handler_registry() -> (r: Result<Vec<HandlerDefinition>, Error>)
    ensures
        r matches Err(e) ==> e is Config,
        crate::noml::closed_comments(HANDLER_REGISTRY@) ==> match parsed_document(HANDLER_REGISTRY@) {
            Some(vt) => plain(vt) ==> exists|d: Value|
                #[trigger] value_text(d) == vt && match document_handlers(d) {
                    Ok(hs) => r matches Ok(v) && handler_texts(v@) == hs,
                    Err(m) => r matches Err(Error::Config(x)) && x@ == m,
                },
            None => r is Err,
        },
{
    let source = handler_registry_text();
    if !comments_closed(source) {
        return Err(Error::Config(text::owned("invalid run handler registry: unterminated block comment")));
    }
    let document = match parse(source) {
        Ok(d) => d,
        Err(error) => {
            let m = text::concat("invalid run handler registry: ", error.message.as_str());
            return Err(Error::Config(m));
        },
    };
    handlers_of_document(&document)
}

/// The first handler whose extensions hold `extension`.
pub open spec fn handler_for(hs: Seq<HandlerDefinition>, extension: Seq<char>) -> Option<int>
    decreases hs.len(),
{
    if hs.len() == 0 {
        None
    } else {
        match handler_for(hs.drop_last(), extension) {
            Some(i) => Some(i),
            None => if text::views(hs.last().extensions@).contains(extension) {
                Some(hs.len() - 1)
            } else {
                None
            },
        }
    }
}

proof fn lemma_handler_prefix(hs: Seq<HandlerDefinition>, extension: Seq<char>, n: int)
    requires
        0 < n <= hs.len(),
        handler_for(hs.take(n - 1), extension) is None,
        text::views(hs[n - 1].extensions@).contains(extension),
    ensures
        handler_for(hs, extension) == Some(n - 1),
    decreases hs.len(),
{
    assert(hs.take(n).drop_last() == hs.take(n - 1));
    if n < hs.len() {
        assert(hs.drop_last().take(n - 1) == hs.take(n - 1));
        assert(hs.drop_last()[n - 1] == hs[n - 1]);
        lemma_handler_prefix(hs.drop_last(), extension, n);
    } else {
        assert(hs.take(n) == hs);
    }
}

fn contains_text(list: &Vec<String>, name: &str) -> (r: bool)
    ensures
        r == text::views(list@).contains(name@),
{
    let mut i: usize = 0;
    while i < list.len()
        invariant
            i <= list@.len(),
            forall|j: int| 0 <= j < i ==> list@[j]@ != name@,
        decreases list@.len() - i,
    {
        if text::same(list[i].as_str(), name) {
            assert(text::views(list@)[i as int] == name@);
            return true;
        }
        i = i + 1;
    }
    proof {
        if text::views(list@).contains(name@) {
            let j = choose|j: int| 0 <= j < text::views(list@).len() && text::views(list@)[j] == name@;
            assert(list@[j]@ == name@);
        }
    }
    false
}

/// The index of the handler for a source file in a registry.
pub fn resolve(source: &str, handlers: &Vec<HandlerDefinition>) -> (r: Result<usize, Error>)
    ensures
        match paths::extension(source@) {
            None => r matches Err(Error::Config(m)) && m@ == "unknown file type: '"@ + source@ + "'"@,
            Some(e) => match handler_for(handlers@, e) {
                Some(i) => r matches Ok(k) && k == i && k < handlers@.len(),
                None => r matches Err(Error::Config(m)) && m@ == "unknown file type for '"@ + source@
                    + "'; no run handler is registered for '."@ + e + "'"@,
            },
        },
{
    let extension = match paths::extension_of(source) {
        Some(e) => e,
        None => {
            let mut m = text::owned("unknown file type: '");
            text::push_str(&mut m, source);
            text::push_str(&mut m, "'");
            return Err(Error::Config(m));
        },
    };
    let mut i: usize = 0;
    while i < handlers.len()
        invariant
            i <= handlers@.len(),
            paths::extension(source@) == Some(extension@),
            handler_for(handlers@.take(i as int), extension@) is None,
        decreases handlers@.len() - i,
    {
        assert(handlers@.take(i + 1).drop_last() == handlers@.take(i as int));
        let found = contains_text(&handlers[i].extensions, extension.as_str());
        if found {
            proof {
                lemma_handler_prefix(handlers@, extension@, i + 1);
            }
            return Ok(i);
        }
        i = i + 1;
    }
    assert(handlers@.take(handlers@.len() as int) == handlers@);
    let mut m = text::owned("unknown file type for '");
    text::push_str(&mut m, source);
    text::push_str(&mut m, "'; no run handler is registered for '.");
    text::push_str(&mut m, extension.as_str());
    text::push_str(&mut m, "'");
    Err(Error::Config(m))
}

/// The first handler, as text, whose extensions hold `extension`.
pub open spec fn handler_text_for(
    hs: Seq<(Seq<char>, Seq<Seq<char>>, HandlerMode, Seq<Seq<char>>, Seq<Seq<char>>, Seq<char>)>,
    extension: Seq<char>,
) -> Option<int>
    decreases hs.len(),
{
    if hs.len() == 0 {
        None
    } else {
        match handler_text_for(hs.drop_last(), extension) {
            Some(i) => Some(i),
            None => if hs.last().1.contains(extension) {
                Some(hs.len() - 1)
            } else {
                None
            },
        }
    }
}

proof fn lemma_handler_text_for(hs: Seq<HandlerDefinition>, extension: Seq<char>)
    ensures
        handler_text_for(handler_texts(hs), extension) == handler_for(hs, extension),
        handler_texts(hs).len() == hs.len(),
    decreases hs.len(),
{
    if hs.len() > 0 {
        assert(handler_texts(hs).drop_last() =~= handler_texts(hs.drop_last()));
        lemma_handler_text_for(hs.drop_last(), extension);
    }
}

/// What running a file with a registry's handlers (as text) gives: the
/// language of the first handler for its extension, or the error of the
/// missing handler.
pub open spec fn language_for(
    hs: Seq<(Seq<char>, Seq<Seq<char>>, HandlerMode, Seq<Seq<char>>, Seq<Seq<char>>, Seq<char>)>,
    source: Seq<char>,
    r: Result<String, Error>,
) -> bool {
    match paths::extension(source) {
        None => r matches Err(Error::Config(m)) && m@ == "unknown file type: '"@ + source + "'"@,
        Some(e) => match handler_text_for(hs, e) {
            Some(i) => r matches Ok(l) && l@ == hs[i].0,
            None => r matches Err(Error::Config(m)) && m@ == "unknown file type for '"@ + source
                + "'; no run handler is registered for '."@ + e + "'"@,
        },
    }
}

/// The language of the handler that runs a source file.
pub fn handler_language(source: &str) -> (r: Result<String, Error>)
    ensures
        paths::extension(source@) is None ==> (r matches Err(Error::Config(m)) && m@ == "unknown file type: '"@ + source@ + "'"@),
        crate::noml::closed_comments(HANDLER_REGISTRY@) && paths::extension(source@) is Some ==> match parsed_document(
            HANDLER_REGISTRY@,
        ) {
            Some(vt) => plain(vt) ==> exists|d: Value|
                #[trigger] value_text(d) == vt && match document_handlers(d) {
                    Ok(hs) => language_for(hs, source@, r),
                    Err(m) => r matches Err(Error::Config(x)) && x@ == m,
                },
            None => r is Err,
        },
{
    if paths::extension_of(source).is_none() {
        let mut m = text::owned("unknown file type: '");
        text::push_str(&mut m, source);
        text::push_str(&mut m, "'");
        return Err(Error::Config(m));
    }
    let handlers = handler_registry()?;
    proof {
        lemma_handler_text_for(handlers@, match paths::extension(source@) {
            Some(e) => e,
            None => Seq::empty(),
        });
    }
    let index = resolve(source, &handlers)?;
    Ok(handlers[index].language.clone())
}

/// What running a source file through its handler does.
pub enum HandlerRun {
    /// Runs `program` with these arguments.
    Direct(String, Vec<String>),
    /// Compiles with `compiler` and these arguments, then runs the output
    /// with the child arguments.
    Compile(String, Vec<String>, Vec<String>),
}

/// The commands a handler runs for a source file, given the tool that was
/// found for it.
pub fn handler_run(
    handler: &HandlerDefinition,
    tool: &str,
    source: &str,
    output: &str,
    child_arguments: &Vec<String>,
) -> (r: Result<HandlerRun, Error>)
    ensures
        handler.mode == HandlerMode::Unsupported ==> (r matches Err(Error::Config(m)) && m@ == "cannot run '"@ + source@
            + "': the "@ + handler.language@ + " handler is registered, but its execution mode is not implemented yet; required dependency "@
            + handler.dependency@),
        handler.mode == HandlerMode::Runtime ==> (r matches Ok(HandlerRun::Direct(p, args)) && p@ == tool@ && text::views(
            args@,
        ) == text::views(handler.arguments@) + seq![source@] + text::views(child_arguments@)),
        handler.mode == HandlerMode::Compile ==> (r matches Ok(HandlerRun::Compile(c, args, rest)) && c@ == tool@
            && args@.len() == handler.arguments@.len() && text::views(rest@) == text::views(child_arguments@)),
{
    match handler.mode {
        HandlerMode::Runtime => {
            let mut args: Vec<String> = Vec::new();
            let mut i: usize = 0;
            while i < handler.arguments.len()
                invariant
                    i <= handler.arguments@.len(),
                    text::views(args@) == text::views(handler.arguments@.take(i as int)),
                decreases handler.arguments@.len() - i,
            {
                let ghost before = args@;
                args.push(handler.arguments[i].clone());
                assert(text::views(args@) == text::views(before).push(handler.arguments@[i as int]@));
                assert(handler.arguments@.take(i + 1) == handler.arguments@.take(i as int).push(handler.arguments@[i as int]));
                i = i + 1;
            }
            assert(handler.arguments@.take(handler.arguments@.len() as int) == handler.arguments@);
            let ghost before = args@;
            args.push(text::owned(source));
            assert(text::views(args@) == text::views(before).push(source@));
            let ghost middle = args@;
            let mut k: usize = 0;
            while k < child_arguments.len()
                invariant
                    k <= child_arguments@.len(),
                    text::views(args@) == text::views(middle) + text::views(child_arguments@.take(k as int)),
                decreases child_arguments@.len() - k,
            {
                let ghost prev = args@;
                args.push(child_arguments[k].clone());
                assert(text::views(args@) == text::views(prev).push(child_arguments@[k as int]@));
                assert(child_arguments@.take(k + 1) == child_arguments@.take(k as int).push(child_arguments@[k as int]));
                assert(text::views(child_arguments@.take(k + 1)) == text::views(child_arguments@.take(k as int)).push(child_arguments@[k as int]@));
                k = k + 1;
            }
            assert(child_arguments@.take(child_arguments@.len() as int) == child_arguments@);
            Ok(HandlerRun::Direct(text::owned(tool), args))
        },
        HandlerMode::Compile => {
            let args = compile_arguments(&handler.arguments, source, output);
            let mut rest: Vec<String> = Vec::new();
            let mut k: usize = 0;
            while k < child_arguments.len()
                invariant
                    k <= child_arguments@.len(),
                    text::views(rest@) == text::views(child_arguments@.take(k as int)),
                decreases child_arguments@.len() - k,
            {
                let ghost prev = rest@;
                rest.push(child_arguments[k].clone());
                assert(text::views(rest@) == text::views(prev).push(child_arguments@[k as int]@));
                assert(child_arguments@.take(k + 1) == child_arguments@.take(k as int).push(child_arguments@[k as int]));
                k = k + 1;
            }
            assert(child_arguments@.take(child_arguments@.len() as int) == child_arguments@);
            Ok(HandlerRun::Compile(text::owned(tool), args, rest))
        },
        HandlerMode::Unsupported => {
            let mut m = text::owned("cannot run '");
            text::push_str(&mut m, source);
            text::push_str(&mut m, "': the ");
            text::push_str(&mut m, handler.language.as_str());
            text::push_str(&mut m, " handler is registered, but its execution mode is not implemented yet; required dependency ");
            text::push_str(&mut m, handler.dependency.as_str());
            Err(Error::Config(m))
        },
    }
}

/// The handlers of `nox run FILE`, in NOML.
pub const HANDLER_REGISTRY: &'static str = "ruleset \"handlers\" {
    handler: fsharp {
        language: \"F#\"
        extensions: [fsx, fs]
        mode: runtime
        tools: [dotnet]
        arguments: [fsi]
        dependency: \"the .NET SDK\"
    },
    handler: c {
        language: C
        extensions: [c]
        mode: compile
        tools: [cc, gcc, clang]
        arguments: [\"{source}\", \"-o\", \"{output}\"]
        dependency: \"a C compiler\"
    },
    handler: cpp {
        language: \"C++\"
        extensions: [cpp, cc, cxx]
        mode: compile
        tools: [\"c++\", \"g++\", \"clang++\"]
        arguments: [\"{source}\", \"-o\", \"{output}\"]
        dependency: \"a C++ compiler\"
    },
    handler: d {
        language: D
        extensions: [d]
        mode: compile
        tools: [dmd, ldc2]
        arguments: [\"{source}\", \"-of={output}\"]
        dependency: \"a D compiler\"
    },
    handler: ruby {
        language: Ruby
        extensions: [rb]
        mode: runtime
        tools: [ruby]
        arguments: []
        dependency: Ruby
    },
    handler: python {
        language: Python
        extensions: [py]
        mode: runtime
        tools: [python3, python]
        arguments: []
        dependency: Python
    },
    handler: javascript {
        language: JavaScript
        extensions: [js, mjs, cjs]
        mode: runtime
        tools: [node]
        arguments: []
        dependency: \"Node.js\"
    },
    handler: typescript {
        language: TypeScript
        extensions: [ts]
        mode: unsupported
        tools: [tsc]
        arguments: []
        dependency: TypeScript
    }
}
";

fn handler_registry_text() -> (r: &'static str)
    ensures
        r@ == HANDLER_REGISTRY@,
{
    HANDLER_REGISTRY
}

/// The error when the build directory was configured otherwise.
pub fn configuration_mismatch(build_dir: &str, configured: &str, requested: &str) -> (r: Error)
    ensures
        r matches Error::Config(m) && m@ == "build directory '"@ + build_dir@ + "' is configured for "@ + configured@
            + ", not "@ + requested@,
{
    let mut m = text::owned("build directory '");
    text::push_str(&mut m, build_dir);
    text::push_str(&mut m, "' is configured for ");
    text::push_str(&mut m, configured);
    text::push_str(&mut m, ", not ");
    text::push_str(&mut m, requested);
    Error::Config(m)
}

/// The target that `nox run NAME` asks for once the project is chosen:
/// `NAME` names a target when the build defines one project and `NAME`
/// is not its name.
pub fn target_request<'a>(project_count: usize, project_name: &str, requested: Option<&'a str>) -> (r: Option<&'a str>)
    ensures
        r == (if project_count == 1 && requested is Some && requested->0@ != project_name@ { requested } else { None }),
{
    match requested {
        Some(name) => if project_count == 1 && !text::same(name, project_name) {
            Some(name)
        } else {
            None
        },
        None => None,
    }
}

} // verus!
