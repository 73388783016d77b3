//! The commands that build a project's targets, in dependency order: a
//! compile command per C or C++ source and a command that archives or
//! links the objects, or one `rustc` or Gradle invocation. Running them,
//! in parallel and only where an object is out of date, is the caller's
//! part.
use vstd::prelude::*;
use crate::build_system::gradle::{gradle_build_arguments, build_arguments};
use crate::build_system::state::BuildState;
use crate::domain::error::Error;
use crate::domain::graph;
use crate::domain::model::{Project, Target, TargetKind, TargetLanguage, find_target, lemma_find_target};
use crate::paths;
use crate::text;

verus! {

/// A program and its arguments.
#[derive(Clone, Debug)]
pub struct Command {
    pub program: String,
    pub args: Vec<String>,
}

/// The compilation of one source into an object, with its dependency file.
#[derive(Clone, Debug)]
pub struct CompileStep {
    pub source: String,
    pub object: String,
    pub depfile: String,
    pub command: Command,
}

/// How one target is built: its output directory, its compile steps, the
/// command that produces its artifact, and the artifact.
#[derive(Clone, Debug)]
pub struct TargetBuild {
    pub name: String,
    pub output_dir: String,
    pub compiles: Vec<CompileStep>,
    pub link: Command,
    pub artifact: String,
}

/// The output directory of a target.
pub open spec fn out_dir(s: BuildState, name: Seq<char>) -> Seq<char> {
    paths::join(paths::join(s.build_dir@, s.configuration@), name)
}

/// The file name of a target's artifact: `lib` and `.a` or `.so` for
/// libraries.
pub open spec fn artifact_file(t: Target) -> Seq<char> {
    match t.kind {
        TargetKind::StaticLibrary => "lib"@ + t.name@ + ".a"@,
        TargetKind::SharedLibrary => "lib"@ + t.name@ + ".so"@,
        _ => t.name@,
    }
}

/// A target's artifact in a directory.
pub open spec fn artifact(directory: Seq<char>, t: Target) -> Seq<char> {
    paths::join(directory, artifact_file(t))
}

/// Targets that `rustc` builds.
pub open spec fn uses_rustc(k: TargetKind) -> bool {
    k == (TargetKind::Executable { language: Some(TargetLanguage::Rust) }) || k == TargetKind::RustLibrary
}

/// Targets that Gradle builds.
pub open spec fn uses_gradle(k: TargetKind) -> bool {
    k == (TargetKind::Executable { language: Some(TargetLanguage::Gradle) })
}

/// A C++ source, by its extension.
pub open spec fn cpp_source(p: Seq<char>) -> bool {
    paths::extension(p) matches Some(e) && (e == "cpp"@ || e == "cc"@ || e == "cxx"@)
}

/// Each text with a prefix.
pub open spec fn prefixed(prefix: Seq<char>, xs: Seq<Seq<char>>) -> Seq<Seq<char>> {
    xs.map_values(|x: Seq<char>| prefix + x)
}

/// The arguments that compile a source: dependency output, the
/// configuration's debug or optimization flags, the target's flags, the
/// extra flags of the build directory, defines and include directories.
pub open spec fn compile_args(source: Seq<char>, object: Seq<char>, depfile: Seq<char>, s: BuildState, t: Target) -> Seq<Seq<char>> {
    seq!["-MMD"@, "-MF"@, depfile, "-c"@, source, "-o"@, object]
        + (if s.configuration@ == "debug"@ { seq!["-g"@, "-O0"@] } else { seq!["-O2"@] })
        + text::views(t.flags@) + text::views(s.compile_flags@)
        + prefixed("-D"@, text::views(t.defines@)) + prefixed("-I"@, text::views(t.include_dirs@))
}

/// The object and dependency file of a source in the output directory.
pub open spec fn object_of(dir: Seq<char>, stem: Seq<char>) -> Seq<char> {
    paths::join(dir, stem + ".o"@)
}

pub open spec fn depfile_of(dir: Seq<char>, stem: Seq<char>) -> Seq<char> {
    paths::join(dir, stem + ".d"@)
}

/// Whether a step compiles `source` for the target as described.
pub open spec fn compile_step_for(c: CompileStep, source: Seq<char>, s: BuildState, t: Target, cpp: Seq<char>) -> bool {
    let dir = out_dir(s, t.name@);
    paths::file_stem(source) matches Some(stem) && {
        &&& c.source@ == source
        &&& c.object@ == object_of(dir, stem)
        &&& c.depfile@ == depfile_of(dir, stem)
        &&& c.command.program@ == (if cpp_source(source) { cpp } else { s.compiler@ })
        &&& text::views(c.command.args@) == compile_args(source, object_of(dir, stem), depfile_of(dir, stem), s, t)
    }
}

/// The first source without a file stem.
pub open spec fn first_invalid_source(t: Target) -> Option<int> {
    if exists|i: int| 0 <= i < t.sources@.len() && paths::file_stem(#[trigger] t.sources@[i]@) is None {
        Some(choose|i: int| 0 <= i < t.sources@.len() && paths::file_stem(#[trigger] t.sources@[i]@) is None
            && forall|j: int| 0 <= j < i ==> paths::file_stem(#[trigger] t.sources@[j]@) is Some)
    } else {
        None
    }
}

/// The first dependency that names no target.
pub open spec fn first_unknown_dependency(p: Project, t: Target) -> Option<int> {
    if exists|i: int| 0 <= i < t.dependencies@.len() && find_target(p.targets@, #[trigger] t.dependencies@[i]@) is None {
        Some(choose|i: int| 0 <= i < t.dependencies@.len() && find_target(p.targets@, #[trigger] t.dependencies@[i]@) is None
            && forall|j: int| 0 <= j < i ==> find_target(p.targets@, #[trigger] t.dependencies@[j]@) is Some)
    } else {
        None
    }
}

/// The artifacts of a target's dependencies (all of which name targets).
pub open spec fn dependency_artifacts(p: Project, s: BuildState, t: Target) -> Seq<Seq<char>> {
    t.dependencies@.map_values(|d: String| {
        let item = p.targets@[find_target(p.targets@, d@)->0];
        artifact(out_dir(s, item.name@), item)
    })
}

/// The linker of a target: the C++ compiler when a source is C++.
pub open spec fn linker_of(t: Target, s: BuildState, cpp: Seq<char>) -> Seq<char> {
    if exists|i: int| 0 <= i < t.sources@.len() && cpp_source(#[trigger] t.sources@[i]@) {
        cpp
    } else {
        s.linker@
    }
}

/// The command that produces a C or C++ target's artifact from its objects.
pub open spec fn link_command_for(c: Command, p: Project, s: BuildState, t: Target, objects: Seq<Seq<char>>, cpp: Seq<char>) -> bool {
    let output = artifact(out_dir(s, t.name@), t);
    match t.kind {
        TargetKind::StaticLibrary => c.program@ == s.archiver@ && text::views(c.args@) == seq!["-rcs"@, output] + objects,
        TargetKind::SharedLibrary => c.program@ == linker_of(t, s, cpp) && text::views(c.args@) == seq!["-shared"@]
            + text::views(t.linker_flags@) + objects + seq!["-o"@, output],
        _ => c.program@ == linker_of(t, s, cpp) && text::views(c.args@) == text::views(t.linker_flags@) + objects
            + dependency_artifacts(p, s, t) + seq!["-o"@, output],
    }
}

/// The `rustc` command of a Rust target.
pub open spec fn rustc_args(t: Target, output: Seq<char>) -> Seq<Seq<char>> {
    seq![t.sources@[0]@, "-o"@, output] + text::views(t.flags@) + if t.kind == TargetKind::RustLibrary {
        seq!["--crate-type"@, "lib"@]
    } else {
        Seq::empty()
    }
}

/// What can stop a target from being planned.
pub open spec fn target_error(p: Project, t: Target) -> Option<Seq<char>> {
    if uses_rustc(t.kind) {
        if t.sources@.len() == 0 { Some("Rust target has no source"@) } else { None }
    } else if uses_gradle(t.kind) {
        None
    } else if first_invalid_source(t) is Some {
        Some("invalid source '"@ + t.sources@[first_invalid_source(t)->0]@ + "'"@)
    } else if t.kind is Executable && first_unknown_dependency(p, t) is Some {
        Some("unknown dependency '"@ + t.dependencies@[first_unknown_dependency(p, t)->0]@ + "'"@)
    } else {
        None
    }
}

/// Whether `b` is the plan of the target `t`.
pub open spec fn plan_for(b: TargetBuild, p: Project, s: BuildState, t: Target, rustc: Seq<char>, cpp: Seq<char>) -> bool {
    let dir = out_dir(s, t.name@);
    let output = artifact(dir, t);
    &&& b.name@ == t.name@
    &&& b.output_dir@ == dir
    &&& b.artifact@ == output
    &&& if uses_rustc(t.kind) {
        b.compiles@.len() == 0 && b.link.program@ == rustc && text::views(b.link.args@) == rustc_args(t, output)
    } else if uses_gradle(t.kind) {
        b.compiles@.len() == 0 && b.link.program@ == "gradle"@ && text::views(b.link.args@) == build_arguments(t)
    } else {
        &&& b.compiles@.len() == t.sources@.len()
        &&& forall|i: int| 0 <= i < t.sources@.len() ==> compile_step_for(#[trigger] b.compiles@[i], t.sources@[i]@, s, t, cpp)
        &&& link_command_for(b.link, p, s, t, b.compiles@.map_values(|c: CompileStep| c.object@), cpp)
    }
}

/// The artifact of a target in a directory.
pub fn artifact_path(directory: &str, target: &Target) -> (r: String)
    ensures
        r@ == artifact(directory@, *target),
{
    let file = match target.kind {
        TargetKind::StaticLibrary => {
            let mut f = text::owned("lib");
            text::push_str(&mut f, target.name.as_str());
            text::push_str(&mut f, ".a");
            f
        },
        TargetKind::SharedLibrary => {
            let mut f = text::owned("lib");
            text::push_str(&mut f, target.name.as_str());
            text::push_str(&mut f, ".so");
            f
        },
        _ => text::owned(target.name.as_str()),
    };
    paths::join_text(directory, file.as_str())
}

/// Whether a source is C++, by its extension.
pub fn is_cpp_source(source: &str) -> (r: bool)
    ensures
        r == cpp_source(source@),
{
    match paths::extension_of(source) {
        Some(e) => text::same(e.as_str(), "cpp") || text::same(e.as_str(), "cc") || text::same(e.as_str(), "cxx"),
        None => false,
    }
}

/// The linker of a target: the C++ compiler when a source is C++.
pub fn linker_for_target(target: &Target, c_linker: &str, cpp: &str) -> (r: String)
    ensures
        r@ == (if exists|i: int| 0 <= i < target.sources@.len() && cpp_source(#[trigger] target.sources@[i]@) {
            cpp@
        } else {
            c_linker@
        }),
{
    let mut i: usize = 0;
    while i < target.sources.len()
        invariant
            i <= target.sources@.len(),
            forall|j: int| 0 <= j < i ==> !cpp_source(#[trigger] target.sources@[j]@),
        decreases target.sources@.len() - i,
    {
        if is_cpp_source(target.sources[i].as_str()) {
            return text::owned(cpp);
        }
        i = i + 1;
    }
    text::owned(c_linker)
}

fn push_text(v: &mut Vec<String>, x: &str)
    ensures
        text::views(final(v)@) == text::views(old(v)@).push(x@),
{
    let ghost before = v@;
    v.push(text::owned(x));
    assert(text::views(v@) =~= text::views(before).push(x@));
}

fn push_all(v: &mut Vec<String>, xs: &Vec<String>)
    ensures
        text::views(final(v)@) == text::views(old(v)@) + text::views(xs@),
{
    let ghost before = text::views(v@);
    let mut i: usize = 0;
    while i < xs.len()
        invariant
            i <= xs@.len(),
            text::views(v@) == before + text::views(xs@).take(i as int),
        decreases xs@.len() - i,
    {
        push_text(v, xs[i].as_str());
        assert(text::views(xs@).take(i + 1) =~= text::views(xs@).take(i as int).push(xs@[i as int]@));
        i = i + 1;
    }
    assert(text::views(xs@).take(i as int) =~= text::views(xs@));
}

fn push_prefixed(v: &mut Vec<String>, prefix: &str, xs: &Vec<String>)
    ensures
        text::views(final(v)@) == text::views(old(v)@) + prefixed(prefix@, text::views(xs@)),
{
    let ghost before = text::views(v@);
    let mut i: usize = 0;
    while i < xs.len()
        invariant
            i <= xs@.len(),
            text::views(v@) == before + prefixed(prefix@, text::views(xs@).take(i as int)),
        decreases xs@.len() - i,
    {
        let x = text::concat(prefix, xs[i].as_str());
        push_text(v, x.as_str());
        assert(prefixed(prefix@, text::views(xs@).take(i + 1)) =~= prefixed(prefix@, text::views(xs@).take(i as int)).push(prefix@ + xs@[i as int]@));
        i = i + 1;
    }
    assert(text::views(xs@).take(i as int) =~= text::views(xs@));
}

/// The compile step of one source.
fn compile_step(source: &str, target: &Target, state: &BuildState, dir: &str, cpp: &str) -> (r: Result<CompileStep, Error>)
    requires
        dir@ == out_dir(*state, target.name@),
    ensures
        match r {
            Ok(c) => compile_step_for(c, source@, *state, *target, cpp@),
            Err(e) => paths::file_stem(source@) is None
                && (e matches Error::Config(m) && m@ == "invalid source '"@ + source@ + "'"@),
        },
{
    let stem = match paths::file_stem_of(source) {
        Some(s) => s,
        None => {
            let mut m = text::owned("invalid source '");
            text::push_str(&mut m, source);
            text::push_str(&mut m, "'");
            return Err(Error::Config(m));
        },
    };
    let object = paths::join_text(dir, text::concat(stem.as_str(), ".o").as_str());
    let depfile = paths::join_text(dir, text::concat(stem.as_str(), ".d").as_str());
    let program = if is_cpp_source(source) { text::owned(cpp) } else { text::owned(state.compiler.as_str()) };
    let mut args: Vec<String> = Vec::new();
    push_text(&mut args, "-MMD");
    push_text(&mut args, "-MF");
    push_text(&mut args, depfile.as_str());
    push_text(&mut args, "-c");
    push_text(&mut args, source);
    push_text(&mut args, "-o");
    push_text(&mut args, object.as_str());
    let ghost head = text::views(args@);
    assert(head =~= seq!["-MMD"@, "-MF"@, depfile@, "-c"@, source@, "-o"@, object@]);
    if text::same(state.configuration.as_str(), "debug") {
        push_text(&mut args, "-g");
        push_text(&mut args, "-O0");
    } else {
        push_text(&mut args, "-O2");
    }
    let ghost mode = text::views(args@);
    assert(mode =~= head + (if state.configuration@ == "debug"@ { seq!["-g"@, "-O0"@] } else { seq!["-O2"@] }));
    push_all(&mut args, &target.flags);
    push_all(&mut args, &state.compile_flags);
    push_prefixed(&mut args, "-D", &target.defines);
    push_prefixed(&mut args, "-I", &target.include_dirs);
    Ok(CompileStep {
        source: text::owned(source),
        object,
        depfile,
        command: Command { program, args },
    })
}

/// The artifacts of the dependencies, or the first unknown dependency.
fn dependency_paths(project: &Project, state: &BuildState, target: &Target) -> (r: Result<Vec<String>, Error>)
    ensures
        match r {
            Ok(v) => first_unknown_dependency(*project, *target) is None && text::views(v@) == dependency_artifacts(*project, *state, *target),
            Err(e) => first_unknown_dependency(*project, *target) matches Some(k) && (e matches Error::Config(m)
                && m@ == "unknown dependency '"@ + target.dependencies@[k]@ + "'"@),
        },
{
    let mut v: Vec<String> = Vec::new();
    let mut i: usize = 0;
    while i < target.dependencies.len()
        invariant
            i <= target.dependencies@.len(),
            forall|j: int| 0 <= j < i ==> find_target(project.targets@, #[trigger] target.dependencies@[j]@) is Some,
            text::views(v@) == dependency_artifacts(*project, *state, *target).take(i as int),
        decreases target.dependencies@.len() - i,
    {
        let d = target.dependencies[i].as_str();
        match project.target(d) {
            Some(item) => {
                let dir = paths::join_text(paths::join_text(state.build_dir.as_str(), state.configuration.as_str()).as_str(), item.name.as_str());
                let a = artifact_path(dir.as_str(), item);
                proof {
                    lemma_find_target(project.targets@, d@);
                }
                push_text(&mut v, a.as_str());
                assert(dependency_artifacts(*project, *state, *target).take(i + 1) =~= dependency_artifacts(*project, *state, *target).take(i as int).push(a@));
            },
            None => {
                proof {
                    let k = i as int;
                    let c = first_unknown_dependency(*project, *target)->0;
                    assert(find_target(project.targets@, target.dependencies@[k]@) is None);
                    assert(0 <= c < target.dependencies@.len() && find_target(project.targets@, target.dependencies@[c]@) is None);
                    if c < k {
                        assert(find_target(project.targets@, target.dependencies@[c]@) is Some);
                    }
                    if c > k {
                        assert(find_target(project.targets@, target.dependencies@[k]@) is Some);
                    }
                }
                let mut m = text::owned("unknown dependency '");
                text::push_str(&mut m, d);
                text::push_str(&mut m, "'");
                return Err(Error::Config(m));
            },
        }
        i = i + 1;
    }
    assert(dependency_artifacts(*project, *state, *target).take(i as int) =~= dependency_artifacts(*project, *state, *target));
    Ok(v)
}

/// The plan of one target: `rustc` for Rust targets, Gradle for Gradle
/// targets, and otherwise a compile step per source and the command that
/// archives or links the objects.
pub fn build_target(project: &Project, target: &Target, state: &BuildState, rustc: &str, cpp: &str) -> (r: Result<TargetBuild, Error>)
    ensures
        match r {
            Ok(b) => target_error(*project, *target) is None && plan_for(b, *project, *state, *target, rustc@, cpp@),
            Err(e) => target_error(*project, *target) matches Some(m) && e.is_config_text(m),
        },
{
    let dir = paths::join_text(paths::join_text(state.build_dir.as_str(), state.configuration.as_str()).as_str(), target.name.as_str());
    let output = artifact_path(dir.as_str(), target);
    let is_rust = match target.kind {
        TargetKind::Executable { language: Some(TargetLanguage::Rust) } => true,
        TargetKind::RustLibrary => true,
        _ => false,
    };
    if is_rust {
        if target.sources.len() == 0 {
            return Err(Error::Config(text::owned("Rust target has no source")));
        }
        let mut args: Vec<String> = Vec::new();
        push_text(&mut args, target.sources[0].as_str());
        push_text(&mut args, "-o");
        push_text(&mut args, output.as_str());
        push_all(&mut args, &target.flags);
        let ghost before = text::views(args@);
        if matches!(target.kind, TargetKind::RustLibrary) {
            push_text(&mut args, "--crate-type");
            push_text(&mut args, "lib");
        }
        assert(text::views(args@) =~= rustc_args(*target, output@));
        return Ok(TargetBuild {
            name: text::owned(target.name.as_str()),
            output_dir: dir,
            compiles: Vec::new(),
            link: Command { program: text::owned(rustc), args },
            artifact: output,
        });
    }
    let is_gradle = match target.kind {
        TargetKind::Executable { language: Some(TargetLanguage::Gradle) } => true,
        _ => false,
    };
    if is_gradle {
        let args = gradle_build_arguments(target);
        return Ok(TargetBuild {
            name: text::owned(target.name.as_str()),
            output_dir: dir,
            compiles: Vec::new(),
            link: Command { program: text::owned("gradle"), args },
            artifact: output,
        });
    }
    assert(!uses_rustc(target.kind));
    assert(!uses_gradle(target.kind));
    let mut compiles: Vec<CompileStep> = Vec::new();
    let mut objects: Vec<String> = Vec::new();
    let mut i: usize = 0;
    while i < target.sources.len()
        invariant
            i <= target.sources@.len(),
            dir@ == out_dir(*state, target.name@),
            compiles@.len() == i,
            !uses_rustc(target.kind),
            !uses_gradle(target.kind),
            forall|j: int| 0 <= j < i ==> paths::file_stem(#[trigger] target.sources@[j]@) is Some,
            forall|j: int| 0 <= j < i ==> compile_step_for(#[trigger] compiles@[j], target.sources@[j]@, *state, *target, cpp@),
            text::views(objects@) == compiles@.map_values(|c: CompileStep| c.object@),
        decreases target.sources@.len() - i,
    {
        match compile_step(target.sources[i].as_str(), target, state, dir.as_str(), cpp) {
            Ok(c) => {
                let ghost before_objects = objects@;
                let ghost before_compiles = compiles@;
                push_text(&mut objects, c.object.as_str());
                compiles.push(c);
                assert(compiles@.map_values(|c: CompileStep| c.object@) =~= before_compiles.map_values(|c: CompileStep| c.object@).push(compiles@[i as int].object@));
                assert forall|j: int| 0 <= j < i + 1 implies compile_step_for(#[trigger] compiles@[j], target.sources@[j]@, *state, *target, cpp@) by {
                    if j < i {
                        assert(compiles@[j] == before_compiles[j]);
                    }
                }
            },
            Err(e) => {
                proof {
                    let k = i as int;
                    let c = first_invalid_source(*target)->0;
                    assert(paths::file_stem(target.sources@[k]@) is None);
                    assert(0 <= c < target.sources@.len() && paths::file_stem(target.sources@[c]@) is None);
                    if c < k {
                        assert(paths::file_stem(target.sources@[c]@) is Some);
                    }
                    if c > k {
                        assert(paths::file_stem(target.sources@[k]@) is Some);
                    }
                }
                return Err(e);
            },
        }
        i = i + 1;
    }
    assert(first_invalid_source(*target) is None);
    let link = match target.kind {
        TargetKind::StaticLibrary => {
            let mut args: Vec<String> = Vec::new();
            push_text(&mut args, "-rcs");
            push_text(&mut args, output.as_str());
            push_all(&mut args, &objects);
            assert(text::views(args@) =~= seq!["-rcs"@, output@] + text::views(objects@));
            Command { program: text::owned(state.archiver.as_str()), args }
        },
        TargetKind::SharedLibrary => {
            let mut args: Vec<String> = Vec::new();
            push_text(&mut args, "-shared");
            push_all(&mut args, &target.linker_flags);
            push_all(&mut args, &objects);
            push_text(&mut args, "-o");
            push_text(&mut args, output.as_str());
            assert(text::views(args@) =~= seq!["-shared"@] + text::views(target.linker_flags@) + text::views(objects@) + seq!["-o"@, output@]);
            Command { program: linker_for_target(target, state.linker.as_str(), cpp), args }
        },
        _ => {
            let deps = match dependency_paths(project, state, target) {
                Ok(d) => d,
                Err(e) => return Err(e),
            };
            let mut args: Vec<String> = Vec::new();
            push_all(&mut args, &target.linker_flags);
            push_all(&mut args, &objects);
            push_all(&mut args, &deps);
            push_text(&mut args, "-o");
            push_text(&mut args, output.as_str());
            assert(text::views(args@) =~= text::views(target.linker_flags@) + text::views(objects@) + text::views(deps@) + seq!["-o"@, output@]);
            Command { program: linker_for_target(target, state.linker.as_str(), cpp), args }
        },
    };
    Ok(TargetBuild {
        name: text::owned(target.name.as_str()),
        output_dir: dir,
        compiles,
        link,
        artifact: output,
    })
}

/// The error of the first target, among those named from `i` on, whose
/// plan cannot be made.
pub open spec fn first_plan_error(p: Project, names: Seq<Seq<char>>, i: int) -> Option<Seq<char>>
    decreases names.len() - i,
{
    if i < 0 || i >= names.len() {
        None
    } else {
        match find_target(p.targets@, names[i]) {
            Some(k) => match target_error(p, p.targets@[k]) {
                Some(m) => Some(m),
                None => first_plan_error(p, names, i + 1),
            },
            None => Some("missing target '"@ + names[i] + "'"@),
        }
    }
}

/// The plans of a project's targets in dependency order: the error of the
/// order (the first cycle or unknown target met), or of the first target
/// in that order whose plan cannot be made.
pub fn build(project: &Project, state: &BuildState, rustc: &str, cpp: &str) -> (r: Result<Vec<TargetBuild>, Error>)
    ensures
        r is Ok ==> !graph::has_cycle(*project) && !graph::has_unknown_dependency(*project),
        (graph::has_cycle(*project) || graph::has_unknown_dependency(*project)) ==> (r matches Err(e) && graph::order_error(*project, e)),
        match graph::depth_first_order(*project) {
            Err(m) => r matches Err(e) && e.is_config_text(m),
            Ok(names) => match first_plan_error(*project, names, 0) {
                Some(m) => r matches Err(e) && e.is_config_text(m),
                None => r matches Ok(plans) && graph::closed_order(*project, names) && graph::covers_targets(*project, names)
                    && plans@.len() == names.len() && forall|i: int|
                    0 <= i < names.len() ==> ((#[trigger] find_target(project.targets@, names[i])) matches Some(k)
                        && plan_for(plans@[i], *project, *state, project.targets@[k], rustc@, cpp@)),
            },
        },
{
    let order = match graph::order(project) {
        Ok(o) => o,
        Err(e) => return Err(e),
    };
    let ghost names = text::views(order@);
    let mut plans: Vec<TargetBuild> = Vec::new();
    let mut i: usize = 0;
    while i < order.len()
        invariant
            i <= order@.len(),
            names == text::views(order@),
            graph::depth_first_order(*project) == Ok::<Seq<Seq<char>>, Seq<char>>(names),
            graph::closed_order(*project, names),
            graph::covers_targets(*project, names),
            !graph::has_cycle(*project) && !graph::has_unknown_dependency(*project),
            first_plan_error(*project, names, i as int) == first_plan_error(*project, names, 0),
            plans@.len() == i,
            forall|j: int| 0 <= j < i ==> ((#[trigger] find_target(project.targets@, names[j])) matches Some(k)
                && plan_for(plans@[j], *project, *state, project.targets@[k], rustc@, cpp@)),
        decreases order@.len() - i,
    {
        match plan_at(project, state, &order, i, rustc, cpp) {
            Ok(Some(b)) => {
                let ghost before = plans@;
                plans.push(b);
                assert forall|j: int| 0 <= j < i + 1 implies ((#[trigger] find_target(project.targets@, names[j])) matches Some(k)
                    && plan_for(plans@[j], *project, *state, project.targets@[k], rustc@, cpp@)) by {
                    if j < i {
                        assert(plans@[j] == before[j]);
                    }
                }
            },
            Ok(None) => {
                return Err(Error::Config(text::owned("missing plan")));
            },
            Err(e) => {
                return Err(e);
            },
        }
        i = i + 1;
    }
    Ok(plans)
}

/// The plan of the `i`-th target that `names` lists (in the order that the
/// targets are built), or `None` past the last; the error of a name that
/// no target has, or of a target whose plan cannot be made.
pub fn plan_at(project: &Project, state: &BuildState, names: &Vec<String>, i: usize, rustc: &str, cpp: &str) -> (r: Result<
    Option<TargetBuild>,
    Error,
>)
    ensures
        i >= names@.len() ==> r == Ok::<Option<TargetBuild>, Error>(None),
        i < names@.len() ==> match find_target(project.targets@, names@[i as int]@) {
            None => r matches Err(e) && e.is_config_text("missing target '"@ + names@[i as int]@ + "'"@),
            Some(k) => match target_error(*project, project.targets@[k]) {
                Some(m) => r matches Err(e) && e.is_config_text(m),
                None => r matches Ok(Some(b)) && plan_for(b, *project, *state, project.targets@[k], rustc@, cpp@),
            },
        },
{
    if i >= names.len() {
        return Ok(None);
    }
    let name = names[i].as_str();
    let target = match project.target(name) {
        Some(t) => t,
        None => {
            let mut m = text::owned("missing target '");
            text::push_str(&mut m, name);
            text::push_str(&mut m, "'");
            return Err(Error::Config(m));
        },
    };
    proof {
        lemma_find_target(project.targets@, name@);
    }
    match build_target(project, target, state, rustc, cpp) {
        Ok(b) => Ok(Some(b)),
        Err(e) => Err(e),
    }
}

/// A path of a dependency file without the `\` that continues a line.
pub open spec fn without_backslashes(p: Seq<char>) -> Seq<char>
    decreases p.len(),
{
    if p.len() > 0 && p.last() == '\\' {
        without_backslashes(p.drop_last())
    } else {
        p
    }
}

/// The files that a dependency file (`OBJECT: SOURCE HEADERS...`) names
/// after its first word.
pub open spec fn depfile_files(contents: Seq<char>) -> Seq<Seq<char>> {
    let ws = crate::task::words_from(contents, 0);
    if ws.len() == 0 {
        ws
    } else {
        ws.skip(1).map_values(|w: Seq<char>| without_backslashes(w))
    }
}

/// The files that a dependency file names.
pub fn depfile_dependencies(contents: &str) -> (r: Vec<String>)
    ensures
        text::views(r@) == depfile_files(contents@),
{
    let ws = crate::task::words(contents);
    let ghost all = text::views(ws@);
    let mut r: Vec<String> = Vec::new();
    if ws.len() == 0 {
        assert(text::views(r@) =~= depfile_files(contents@));
        return r;
    }
    let mut i: usize = 1;
    while i < ws.len()
        invariant
            1 <= i <= ws@.len(),
            all == text::views(ws@),
            all == crate::task::words_from(contents@, 0),
            text::views(r@) == all.skip(1).take(i - 1).map_values(|w: Seq<char>| without_backslashes(w)),
        decreases ws@.len() - i,
    {
        let cs = text::chars_of(ws[i].as_str());
        let mut end = cs.len();
        assert(cs@ == cs@.take(cs@.len() as int));
        while end > 0 && cs[end - 1] == '\\'
            invariant
                end <= cs@.len(),
                without_backslashes(cs@.take(end as int)) == without_backslashes(cs@),
            decreases end,
        {
            assert(cs@.take(end as int).drop_last() == cs@.take(end - 1));
            end = end - 1;
        }
        assert(cs@ == cs@.take(cs@.len() as int));
        let w = text::slice_chars(cs.as_slice(), 0, end);
        let ghost before = r@;
        r.push(text::string_of(w.as_slice()));
        assert(w@ == cs@.take(end as int));
        assert(text::views(r@) =~= text::views(before).push(without_backslashes(ws@[i as int]@)));
        assert(all.skip(1).take(i as int).map_values(|w: Seq<char>| without_backslashes(w)) =~= all.skip(1).take(i - 1).map_values(|w: Seq<char>| without_backslashes(w)).push(without_backslashes(all[i as int])));
        i = i + 1;
    }
    assert(all.skip(1).take(i - 1) =~= all.skip(1));
    r
}

/// Whether an object must be compiled again: its time is unknown, the
/// source is newer or of unknown time, the dependency file is missing or
/// unreadable, or a file it names is newer. Times are in nanoseconds since
/// the epoch; a dependency of unknown time does not count.
pub open spec fn needs_build(object: Option<u128>, source: Option<u128>, dependencies: Option<Seq<Option<u128>>>) -> bool {
    match object {
        None => true,
        Some(o) => match source {
            None => true,
            Some(s) => s > o || match dependencies {
                None => true,
                Some(ds) => exists|i: int| 0 <= i < ds.len() && ((#[trigger] ds[i]) matches Some(t) && t > o),
            },
        },
    }
}

/// Reuse: an object is kept, not compiled again, exactly when it exists,
/// its source exists and is not newer, its dependency file was read, and
/// no dependency recorded there is newer than the object.
pub proof fn lemma_object_reuse(object: Option<u128>, source: Option<u128>, dependencies: Option<Seq<Option<u128>>>)
    ensures
        !needs_build(object, source, dependencies) <==> match (object, source, dependencies) {
            (Some(o), Some(s), Some(ds)) => s <= o && forall|i: int| 0 <= i < ds.len() ==> !((#[trigger] ds[i]) matches Some(t) && t > o),
            _ => false,
        },
{
}

/// Whether an object must be compiled again.
pub fn object_needs_build(object: Option<u128>, source: Option<u128>, dependencies: Option<&Vec<Option<u128>>>) -> (r: bool)
    ensures
        r == needs_build(object, source, match dependencies {
            Some(d) => Some(d@),
            None => None,
        }),
{
    let o = match object {
        Some(o) => o,
        None => return true,
    };
    match source {
        None => return true,
        Some(s) => if s > o {
            return true;
        },
    }
    let ds = match dependencies {
        Some(d) => d,
        None => return true,
    };
    let mut i: usize = 0;
    while i < ds.len()
        invariant
            i <= ds@.len(),
            object == Some(o),
            source matches Some(s) && s <= o,
            dependencies == Some(ds),
            forall|j: int| 0 <= j < i ==> !((#[trigger] ds@[j]) matches Some(t) && t > o),
        decreases ds@.len() - i,
    {
        match ds[i] {
            Some(t) => if t > o {
                assert(ds@[i as int] matches Some(t) && t > o);
                assert(exists|j: int| 0 <= j < ds@.len() && ((#[trigger] ds@[j]) matches Some(t) && t > o));
                return true;
            },
            None => {},
        }
        i = i + 1;
    }
    false
}

proof fn lemma_join_last(root: Seq<char>, rel: Seq<char>)
    requires
        rel.len() > 0,
    ensures
        paths::join(root, rel).len() > 0,
        paths::join(root, rel).last() == rel.last(),
{
}

/// No argument of a compile command is the flag `w` unless the source, the
/// target's flags or the build directory's extra flags hold it: the other
/// arguments are fixed words, the object and dependency files (ending in
/// `.o` and `.d`), defines (`-D...`) and include directories (`-I...`).
proof fn lemma_compile_args_without(
    source: Seq<char>,
    dir: Seq<char>,
    stem: Seq<char>,
    s: BuildState,
    t: Target,
    w: Seq<char>,
)
    requires
        w.len() == 3,
        w[0] == '-',
        w[1] != 'D' && w[1] != 'I' && w[1] != 'M' && w[1] != 'c' && w[1] != 'o',
        w.last() != 'o' && w.last() != 'd',
        source != w,
        !text::views(t.flags@).contains(w),
        !text::views(s.compile_flags@).contains(w),
        !(if s.configuration@ == "debug"@ { seq!["-g"@, "-O0"@] } else { seq!["-O2"@] }).contains(w),
    ensures
        !compile_args(source, object_of(dir, stem), depfile_of(dir, stem), s, t).contains(w),
{
    let object = object_of(dir, stem);
    let depfile = depfile_of(dir, stem);
    reveal_strlit(".o");
    reveal_strlit(".d");
    lemma_join_last(dir, stem + ".o"@);
    lemma_join_last(dir, stem + ".d"@);
    reveal_strlit("-MMD");
    reveal_strlit("-MF");
    reveal_strlit("-c");
    reveal_strlit("-o");
    reveal_strlit("-D");
    reveal_strlit("-I");
    assert((stem + ".o"@).last() == 'o');
    assert((stem + ".d"@).last() == 'd');
    let head = seq!["-MMD"@, "-MF"@, depfile, "-c"@, source, "-o"@, object];
    let mode = if s.configuration@ == "debug"@ { seq!["-g"@, "-O0"@] } else { seq!["-O2"@] };
    let defines = prefixed("-D"@, text::views(t.defines@));
    let includes = prefixed("-I"@, text::views(t.include_dirs@));
    let all = head + mode + text::views(t.flags@) + text::views(s.compile_flags@) + defines + includes;
    assert(all == compile_args(source, object, depfile, s, t));
    assert forall|k: int| 0 <= k < all.len() implies all[k] != w by {
        let a = head.len() as int;
        let b = a + mode.len();
        let c = b + t.flags@.len();
        let d = c + s.compile_flags@.len();
        let e = d + t.defines@.len();
        if k < a {
            assert(all[k] == head[k]);
            if k == 2 {
                assert(depfile.last() == 'd');
            } else if k == 6 {
                assert(object.last() == 'o');
            }
        } else if k < b {
            assert(all[k] == mode[k - a]);
        } else if k < c {
            assert(all[k] == text::views(t.flags@)[k - b]);
        } else if k < d {
            assert(all[k] == text::views(s.compile_flags@)[k - c]);
        } else if k < e {
            assert(all[k] == defines[k - d]);
            assert(all[k][1] == 'D');
        } else {
            assert(all[k] == includes[k - e]);
            assert(all[k][1] == 'I');
        }
    }
}

/// Law: a compile step of a configuration other than `debug` optimizes
/// (`-O2`) and, unless the source or the flags ask for it, never compiles
/// unoptimized (`-O0`) or with debug information (`-g`); a `debug` step
/// compiles with `-g -O0` and, unless the source or the flags ask for it,
/// never with `-O2`.
pub proof fn lemma_compile_optimization(c: CompileStep, source: Seq<char>, s: BuildState, t: Target, cpp: Seq<char>)
    requires
        compile_step_for(c, source, s, t, cpp),
    ensures
        s.configuration@ != "debug"@ ==> text::views(c.command.args@).contains("-O2"@),
        s.configuration@ != "debug"@ && source != "-O0"@ && !text::views(t.flags@).contains("-O0"@)
            && !text::views(s.compile_flags@).contains("-O0"@) ==> !text::views(c.command.args@).contains("-O0"@),
        s.configuration@ == "debug"@ ==> text::views(c.command.args@).contains("-g"@) && text::views(
            c.command.args@,
        ).contains("-O0"@),
        s.configuration@ == "debug"@ && source != "-O2"@ && !text::views(t.flags@).contains("-O2"@)
            && !text::views(s.compile_flags@).contains("-O2"@) ==> !text::views(c.command.args@).contains("-O2"@),
{
    let dir = out_dir(s, t.name@);
    let stem = paths::file_stem(source)->0;
    let args = text::views(c.command.args@);
    let object = object_of(dir, stem);
    let depfile = depfile_of(dir, stem);
    assert(args == compile_args(source, object, depfile, s, t));
    reveal_strlit("-O2");
    reveal_strlit("-O0");
    reveal_strlit("-g");
    let head = seq!["-MMD"@, "-MF"@, depfile, "-c"@, source, "-o"@, object];
    let mode = if s.configuration@ == "debug"@ { seq!["-g"@, "-O0"@] } else { seq!["-O2"@] };
    if s.configuration@ != "debug"@ {
        assert(args[7] == mode[0]);
        assert(!mode.contains("-O0"@)) by {
            assert(mode[0] != "-O0"@) by {
                assert(mode[0][2] != "-O0"@[2]);
            }
        }
        if source != "-O0"@ && !text::views(t.flags@).contains("-O0"@) && !text::views(s.compile_flags@).contains("-O0"@) {
            lemma_compile_args_without(source, dir, stem, s, t, "-O0"@);
        }
    } else {
        assert(args[7] == mode[0]);
        assert(args[8] == mode[1]);
        assert(!mode.contains("-O2"@)) by {
            assert(mode[0] != "-O2"@) by {
                assert(mode[0].len() != "-O2"@.len());
            }
            assert(mode[1] != "-O2"@) by {
                assert(mode[1][2] != "-O2"@[2]);
            }
        }
        if source != "-O2"@ && !text::views(t.flags@).contains("-O2"@) && !text::views(s.compile_flags@).contains("-O2"@) {
            lemma_compile_args_without(source, dir, stem, s, t, "-O2"@);
        }
    }
}

/// Law: a compile command compiles its source (after `-c`) into its object
/// (after `-o`), writing the dependency file (after `-MF`), and carries every
/// flag of the target and of the build directory, every define as `-D...`
/// and every include directory as `-I...`.
pub proof fn lemma_compile_carries(c: CompileStep, source: Seq<char>, s: BuildState, t: Target, cpp: Seq<char>)
    requires
        compile_step_for(c, source, s, t, cpp),
    ensures
        ({
            let args = text::views(c.command.args@);
            &&& args[1] == "-MF"@ && args[2] == c.depfile@
            &&& args[3] == "-c"@ && args[4] == source && c.source@ == source
            &&& args[5] == "-o"@ && args[6] == c.object@
            &&& forall|f: Seq<char>| text::views(t.flags@).contains(f) ==> #[trigger] args.contains(f)
            &&& forall|f: Seq<char>| text::views(s.compile_flags@).contains(f) ==> #[trigger] args.contains(f)
            &&& forall|d: Seq<char>| text::views(t.defines@).contains(d) ==> #[trigger] args.contains("-D"@ + d)
            &&& forall|i: Seq<char>| text::views(t.include_dirs@).contains(i) ==> #[trigger] args.contains("-I"@ + i)
        }),
{
    let dir = out_dir(s, t.name@);
    let stem = paths::file_stem(source)->0;
    let args = text::views(c.command.args@);
    let head = seq!["-MMD"@, "-MF"@, depfile_of(dir, stem), "-c"@, source, "-o"@, object_of(dir, stem)];
    let mode = if s.configuration@ == "debug"@ { seq!["-g"@, "-O0"@] } else { seq!["-O2"@] };
    let fl = text::views(t.flags@);
    let cf = text::views(s.compile_flags@);
    let defines = prefixed("-D"@, text::views(t.defines@));
    let includes = prefixed("-I"@, text::views(t.include_dirs@));
    assert(args == head + mode + fl + cf + defines + includes);
    let a = head.len() + mode.len();
    assert forall|f: Seq<char>| fl.contains(f) implies #[trigger] args.contains(f) by {
        let k = choose|k: int| 0 <= k < fl.len() && fl[k] == f;
        assert(args[a + k] == f);
    }
    assert forall|f: Seq<char>| cf.contains(f) implies #[trigger] args.contains(f) by {
        let k = choose|k: int| 0 <= k < cf.len() && cf[k] == f;
        assert(args[a + fl.len() + k] == f);
    }
    assert forall|d: Seq<char>| text::views(t.defines@).contains(d) implies #[trigger] args.contains("-D"@ + d) by {
        let k = choose|k: int| 0 <= k < text::views(t.defines@).len() && text::views(t.defines@)[k] == d;
        assert(args[a + fl.len() + cf.len() + k] == defines[k]);
    }
    assert forall|i: Seq<char>| text::views(t.include_dirs@).contains(i) implies #[trigger] args.contains("-I"@ + i) by {
        let k = choose|k: int| 0 <= k < text::views(t.include_dirs@).len() && text::views(t.include_dirs@)[k] == i;
        assert(args[a + fl.len() + cf.len() + defines.len() + k] == includes[k]);
    }
}

/// Law: the command that makes a C or C++ target's artifact takes every
/// object; a static library is archived (`-rcs` and the artifact first) with
/// no linker flag; a shared library or an executable is linked with every
/// linker flag of the target and ends with `-o` and the artifact, and an
/// executable also takes the artifact of every dependency.
pub proof fn lemma_link_carries(c: Command, p: Project, s: BuildState, t: Target, objects: Seq<Seq<char>>, cpp: Seq<char>)
    requires
        link_command_for(c, p, s, t, objects, cpp),
    ensures
        ({
            let args = text::views(c.args@);
            let output = artifact(out_dir(s, t.name@), t);
            &&& forall|o: Seq<char>| objects.contains(o) ==> #[trigger] args.contains(o)
            &&& t.kind == TargetKind::StaticLibrary ==> c.program@ == s.archiver@ && args[0] == "-rcs"@ && args[1] == output
                && args.len() == objects.len() + 2
            &&& t.kind != TargetKind::StaticLibrary ==> {
                &&& c.program@ == linker_of(t, s, cpp)
                &&& args.len() >= 2 && args[args.len() - 2] == "-o"@ && args.last() == output
                &&& forall|f: Seq<char>| text::views(t.linker_flags@).contains(f) ==> #[trigger] args.contains(f)
            }
            &&& t.kind is Executable ==> forall|d: Seq<char>| dependency_artifacts(p, s, t).contains(d) ==> #[trigger] args.contains(d)
        }),
{
    let args = text::views(c.args@);
    let output = artifact(out_dir(s, t.name@), t);
    let lf = text::views(t.linker_flags@);
    let deps = dependency_artifacts(p, s, t);
    match t.kind {
        TargetKind::StaticLibrary => {
            assert(args == seq!["-rcs"@, output] + objects);
            assert forall|o: Seq<char>| objects.contains(o) implies #[trigger] args.contains(o) by {
                let k = choose|k: int| 0 <= k < objects.len() && objects[k] == o;
                assert(args[2 + k] == o);
            }
        },
        TargetKind::SharedLibrary => {
            assert(args == seq!["-shared"@] + lf + objects + seq!["-o"@, output]);
            assert forall|o: Seq<char>| objects.contains(o) implies #[trigger] args.contains(o) by {
                let k = choose|k: int| 0 <= k < objects.len() && objects[k] == o;
                assert(args[1 + lf.len() + k] == o);
            }
            assert forall|f: Seq<char>| lf.contains(f) implies #[trigger] args.contains(f) by {
                let k = choose|k: int| 0 <= k < lf.len() && lf[k] == f;
                assert(args[1 + k] == f);
            }
        },
        _ => {
            assert(args == lf + objects + deps + seq!["-o"@, output]);
            assert forall|o: Seq<char>| objects.contains(o) implies #[trigger] args.contains(o) by {
                let k = choose|k: int| 0 <= k < objects.len() && objects[k] == o;
                assert(args[lf.len() + k] == o);
            }
            assert forall|f: Seq<char>| lf.contains(f) implies #[trigger] args.contains(f) by {
                let k = choose|k: int| 0 <= k < lf.len() && lf[k] == f;
                assert(args[k] == f);
            }
            assert forall|d: Seq<char>| deps.contains(d) implies #[trigger] args.contains(d) by {
                let k = choose|k: int| 0 <= k < deps.len() && deps[k] == d;
                assert(args[lf.len() + objects.len() + k] == d);
            }
        },
    }
}

/// Law: a Rust target is built by one `rustc` call and no compile step: its
/// first source into the artifact (`-o`), with every flag of the target,
/// and a Rust library as a library crate (`--crate-type lib`).
pub proof fn lemma_rustc_plan(b: TargetBuild, p: Project, s: BuildState, t: Target, rustc: Seq<char>, cpp: Seq<char>)
    requires
        plan_for(b, p, s, t, rustc, cpp),
        uses_rustc(t.kind),
        t.sources@.len() > 0,
    ensures
        ({
            let args = text::views(b.link.args@);
            &&& b.compiles@.len() == 0
            &&& b.link.program@ == rustc
            &&& args[0] == t.sources@[0]@ && args[1] == "-o"@ && args[2] == b.artifact@
            &&& forall|f: Seq<char>| text::views(t.flags@).contains(f) ==> #[trigger] args.contains(f)
            &&& (t.kind == TargetKind::RustLibrary) == (args.len() == t.flags@.len() + 5 && args[args.len() - 2]
                == "--crate-type"@ && args.last() == "lib"@)
            &&& t.kind != TargetKind::RustLibrary ==> args.len() == t.flags@.len() + 3
        }),
{
    let output = artifact(out_dir(s, t.name@), t);
    let args = text::views(b.link.args@);
    let fl = text::views(t.flags@);
    assert(args == rustc_args(t, output));
    assert forall|f: Seq<char>| fl.contains(f) implies #[trigger] args.contains(f) by {
        let k = choose|k: int| 0 <= k < fl.len() && fl[k] == f;
        assert(args[3 + k] == f);
    }
}

} // verus!
