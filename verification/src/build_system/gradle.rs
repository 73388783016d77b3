//! Gradle invocations of Gradle targets.
use vstd::prelude::*;
use crate::domain::model::Target;
use crate::paths;
use crate::text;

verus! {

/// The arguments that build a Gradle target: its tasks (`:NAME:build`
/// when it names none) and its options.
pub open spec fn build_arguments(t: Target) -> Seq<Seq<char>> {
    (if t.gradle_tasks@.len() == 0 {
        seq![":"@ + t.name@ + ":build"@]
    } else {
        text::views(t.gradle_tasks@)
    }) + text::views(t.gradle_options@)
}

/// The arguments that run a Gradle target: its run tasks (`:NAME:run`
/// when it names none) and its run options.
pub open spec fn run_arguments(t: Target) -> Seq<Seq<char>> {
    (if t.gradle_run_tasks@.len() == 0 {
        seq![":"@ + t.name@ + ":run"@]
    } else {
        text::views(t.gradle_run_tasks@)
    }) + text::views(t.gradle_run_options@)
}

fn tasks_then_options(tasks: &Vec<String>, name: &str, suffix: &str, options: &Vec<String>) -> (r: Vec<String>)
    ensures
        text::views(r@) == (if tasks@.len() == 0 {
            seq![":"@ + name@ + suffix@]
        } else {
            text::views(tasks@)
        }) + text::views(options@),
{
    let mut r: Vec<String> = Vec::new();
    if tasks.len() == 0 {
        let mut t = text::owned(":");
        text::push_str(&mut t, name);
        text::push_str(&mut t, suffix);
        r.push(t);
        assert(text::views(r@) =~= seq![":"@ + name@ + suffix@]);
    } else {
        let mut i: usize = 0;
        while i < tasks.len()
            invariant
                i <= tasks@.len(),
                text::views(r@) == text::views(tasks@).take(i as int),
            decreases tasks@.len() - i,
        {
            let ghost before = r@;
            r.push(text::owned(tasks[i].as_str()));
            assert(text::views(r@) =~= text::views(before).push(tasks@[i as int]@));
            assert(text::views(tasks@).take(i + 1) =~= text::views(tasks@).take(i as int).push(tasks@[i as int]@));
            i = i + 1;
        }
        assert(text::views(tasks@).take(i as int) =~= text::views(tasks@));
    }
    let ghost head = text::views(r@);
    let mut i: usize = 0;
    while i < options.len()
        invariant
            i <= options@.len(),
            text::views(r@) == head + text::views(options@).take(i as int),
        decreases options@.len() - i,
    {
        let ghost before = r@;
        r.push(text::owned(options[i].as_str()));
        assert(text::views(r@) =~= text::views(before).push(options@[i as int]@));
        assert(text::views(options@).take(i + 1) =~= text::views(options@).take(i as int).push(options@[i as int]@));
        i = i + 1;
    }
    assert(text::views(options@).take(i as int) =~= text::views(options@));
    r
}

/// The arguments that build a Gradle target.
pub fn gradle_build_arguments(target: &Target) -> (r: Vec<String>)
    ensures
        text::views(r@) == build_arguments(*target),
{
    tasks_then_options(&target.gradle_tasks, target.name.as_str(), ":build", &target.gradle_options)
}

/// The arguments that run a Gradle target.
pub fn gradle_run_arguments(target: &Target) -> (r: Vec<String>)
    ensures
        text::views(r@) == run_arguments(*target),
{
    tasks_then_options(&target.gradle_run_tasks, target.name.as_str(), ":run", &target.gradle_run_options)
}

/// The Gradle program for a project: its wrapper when the project has
/// one (through `cmd /C` on Windows), else `gradle`; and the arguments
/// that come before the tasks.
pub fn gradle_program(root: &str, wrapper_exists: bool, windows: bool) -> (r: (String, Vec<String>))
    ensures
        wrapper_exists && windows ==> r.0@ == "cmd"@ && text::views(r.1@) == seq!["/C"@, paths::join(root@, "gradlew.bat"@)],
        wrapper_exists && !windows ==> r.0@ == paths::join(root@, "gradlew"@) && r.1@.len() == 0,
        !wrapper_exists ==> r.0@ == "gradle"@ && r.1@.len() == 0,
{
    if wrapper_exists {
        if windows {
            let wrapper = paths::join_text(root, "gradlew.bat");
            let mut args: Vec<String> = Vec::new();
            args.push(text::owned("/C"));
            args.push(wrapper);
            assert(text::views(args@) =~= seq!["/C"@, paths::join(root@, "gradlew.bat"@)]);
            (text::owned("cmd"), args)
        } else {
            (paths::join_text(root, "gradlew"), Vec::new())
        }
    } else {
        (text::owned("gradle"), Vec::new())
    }
}

/// Law: Gradle runs the target's tasks in their order, then gets its
/// options, last and in their order; a target that names no task runs its
/// own `build` (or `run`) task, one argument before the options.
pub proof fn lemma_gradle_tasks_then_options(t: Target)
    ensures
        ({
            let b = build_arguments(t);
            let o = text::views(t.gradle_options@);
            let k = text::views(t.gradle_tasks@);
            &&& b.skip(b.len() - o.len()) == o
            &&& k.len() > 0 ==> b.take(k.len() as int) == k && b.len() == k.len() + o.len()
            &&& k.len() == 0 ==> b.len() == o.len() + 1 && b[0] == ":"@ + t.name@ + ":build"@
        }),
        ({
            let r = run_arguments(t);
            let o = text::views(t.gradle_run_options@);
            let k = text::views(t.gradle_run_tasks@);
            &&& r.skip(r.len() - o.len()) == o
            &&& k.len() > 0 ==> r.take(k.len() as int) == k && r.len() == k.len() + o.len()
            &&& k.len() == 0 ==> r.len() == o.len() + 1 && r[0] == ":"@ + t.name@ + ":run"@
        }),
{
    let b = build_arguments(t);
    let o = text::views(t.gradle_options@);
    let head = if t.gradle_tasks@.len() == 0 { seq![":"@ + t.name@ + ":build"@] } else { text::views(t.gradle_tasks@) };
    assert(b == head + o);
    assert(b.skip(b.len() - o.len()) =~= o);
    assert(b.take(head.len() as int) =~= head);
    let r = run_arguments(t);
    let ro = text::views(t.gradle_run_options@);
    let rhead = if t.gradle_run_tasks@.len() == 0 { seq![":"@ + t.name@ + ":run"@] } else { text::views(t.gradle_run_tasks@) };
    assert(r == rhead + ro);
    assert(r.skip(r.len() - ro.len()) =~= ro);
    assert(r.take(rhead.len() as int) =~= rhead);
}

} // verus!
