//! `noxfile` tasks: named shell commands with dependencies on other tasks
//! and on Nox commands.
//!
//! Reading the file and running processes is the caller's part: the
//! functions here parse the text and plan what to run.
use vstd::prelude::*;
use vstd::multiset::Multiset;
use crate::domain::error::Error;
use crate::domain::model::Setting;
use crate::text;
use crate::text::{has_prefix, has_suffix, is_ws, trim};

verus! {

/// A task: the tasks or Nox commands it depends on, and its commands.
pub struct Task {
    pub dependencies: Vec<String>,
    pub commands: Vec<String>,
}

/// The names of a task list.
pub open spec fn task_names(tasks: Seq<(String, Task)>) -> Seq<Seq<char>> {
    tasks.map_values(|e: (String, Task)| e.0@)
}

/// The index of the task named `name`.
pub open spec fn task_index(tasks: Seq<(String, Task)>, name: Seq<char>) -> Option<int>
    decreases tasks.len(),
{
    if tasks.len() == 0 {
        None
    } else {
        match task_index(tasks.drop_last(), name) {
            Some(i) => Some(i),
            None => if tasks.last().0@ == name {
                Some(tasks.len() - 1)
            } else {
                None
            },
        }
    }
}

pub proof fn lemma_task_index(tasks: Seq<(String, Task)>, name: Seq<char>)
    ensures
        task_index(tasks, name) matches Some(i) ==> 0 <= i < tasks.len() && tasks[i].0@ == name,
        task_index(tasks, name) is None ==> forall|i: int| 0 <= i < tasks.len() ==> #[trigger] tasks[i].0@ != name,
        task_index(tasks, name) is None <==> !task_names(tasks).contains(name),
    decreases tasks.len(),
{
    if tasks.len() > 0 {
        let init = tasks.drop_last();
        lemma_task_index(init, name);
        assert forall|i: int| 0 <= i < init.len() implies init[i] == tasks[i] by {}
        match task_index(tasks, name) {
            Some(i) => {
                assert(task_names(tasks)[i] == name);
                assert(task_names(tasks).contains(name));
            },
            None => {
                assert forall|i: int| 0 <= i < tasks.len() implies #[trigger] tasks[i].0@ != name by {
                    if i < init.len() {
                        assert(init[i] == tasks[i]);
                    }
                }
                if task_names(tasks).contains(name) {
                    let j = choose|j: int| 0 <= j < task_names(tasks).len() && task_names(tasks)[j] == name;
                    assert(tasks[j].0@ == name);
                }
            },
        }
    }
}

/// The index of a task by name.
fn position(tasks: &Vec<(String, Task)>, name: &str) -> (r: Option<usize>)
    ensures
        r matches Some(k) ==> task_index(tasks@, name@) == Some(k as int) && k < tasks@.len()
            && tasks@[k as int].0@ == name@,
        r is None ==> task_index(tasks@, name@) is None,
{
    let mut i: usize = 0;
    while i < tasks.len()
        invariant
            i <= tasks@.len(),
            task_index(tasks@.take(i as int), name@) is None,
        decreases tasks@.len() - i,
    {
        assert(tasks@.take(i + 1).drop_last() == tasks@.take(i as int));
        if text::same(tasks[i].0.as_str(), name) {
            proof {
                lemma_index_prefix(tasks@, name@, i + 1);
            }
            return Some(i);
        }
        i = i + 1;
    }
    assert(tasks@.take(tasks@.len() as int) == tasks@);
    None
}

proof fn lemma_index_prefix(tasks: Seq<(String, Task)>, name: Seq<char>, n: int)
    requires
        0 < n <= tasks.len(),
        task_index(tasks.take(n - 1), name) is None,
        tasks[n - 1].0@ == name,
    ensures
        task_index(tasks, name) == Some(n - 1),
    decreases tasks.len(),
{
    assert(tasks.take(n).drop_last() == tasks.take(n - 1));
    if n < tasks.len() {
        assert(tasks.drop_last().take(n - 1) == tasks.take(n - 1));
        assert(tasks.drop_last()[n - 1] == tasks[n - 1]);
        lemma_index_prefix(tasks.drop_last(), name, n);
    } else {
        assert(tasks.take(n) == tasks);
    }
}

/// The task named `name`.
pub fn find_task<'a>(tasks: &'a Vec<(String, Task)>, name: &str) -> (r: Option<&'a Task>)
    ensures
        match task_index(tasks@, name@) {
            Some(i) => r == Some(&tasks@[i].1),
            None => r is None,
        },
{
    proof {
        lemma_task_index(tasks@, name@);
    }
    match position(tasks, name) {
        Some(i) => Some(&tasks[i].1),
        None => None,
    }
}

/// A value without one pair of surrounding double or single quotes.
pub open spec fn unquoted(v: Seq<char>) -> Seq<char> {
    if v.len() >= 2 && v[0] == '"' && v.last() == '"' {
        v.subrange(1, v.len() - 1)
    } else if v.len() >= 2 && v[0] == '\'' && v.last() == '\'' {
        v.subrange(1, v.len() - 1)
    } else {
        v
    }
}

pub fn unquote(value: &str) -> (r: String)
    ensures
        r@ == unquoted(value@),
{
    let cs = text::chars_of(value);
    let n = cs.len();
    if n >= 2 && cs[0] == '"' && cs[n - 1] == '"' {
        let inner = text::slice_chars(&cs, 1, n - 1);
        text::string_of(&inner)
    } else if n >= 2 && cs[0] == '\'' && cs[n - 1] == '\'' {
        let inner = text::slice_chars(&cs, 1, n - 1);
        text::string_of(&inner)
    } else {
        text::owned(value)
    }
}

/// The number of UTF-8 bytes of a character.
pub open spec fn utf8_width(c: char) -> nat {
    if (c as u32) < 0x80 {
        1
    } else if (c as u32) < 0x800 {
        2
    } else if (c as u32) < 0x10000 {
        3
    } else {
        4
    }
}

/// The number of UTF-8 bytes of a text.
pub open spec fn utf8_len(s: Seq<char>) -> nat
    decreases s.len(),
{
    if s.len() == 0 {
        0
    } else {
        utf8_len(s.drop_last()) + utf8_width(s.last())
    }
}

/// The indentation of a line in bytes (`len() - trim_start().len()`).
pub open spec fn byte_indent(line: Seq<char>) -> nat {
    utf8_len(line.take(text::ws_run(line, 0)))
}

fn byte_indent_of(line: &Vec<char>) -> (r: u128)
    ensures
        r == byte_indent(line@),
{
    let k = text::indentation(line);
    let mut i: usize = 0;
    let mut total: u128 = 0;
    while i < k
        invariant
            i <= k <= line@.len(),
            k == text::ws_run(line@, 0),
            total == utf8_len(line@.take(i as int)),
            total <= 4 * i,
        decreases k - i,
    {
        let c = line[i];
        let w: u128 = if (c as u32) < 0x80 {
            1
        } else if (c as u32) < 0x800 {
            2
        } else if (c as u32) < 0x10000 {
            3
        } else {
            4
        };
        assert(line@.take(i + 1).drop_last() == line@.take(i as int));
        total = total + w;
        i = i + 1;
    }
    total
}

/// Whether a task list names each task once.
pub open spec fn unique_names(tasks: Seq<(String, Task)>) -> bool {
    task_names(tasks).no_duplicates()
}

/// A task as text: its name, its dependencies and its commands.
pub open spec fn task_view(e: (String, Task)) -> (Seq<char>, Seq<Seq<char>>, Seq<Seq<char>>) {
    (e.0@, text::views(e.1.dependencies@), text::views(e.1.commands@))
}

pub open spec fn task_views(tasks: Seq<(String, Task)>) -> Seq<(Seq<char>, Seq<Seq<char>>, Seq<Seq<char>>)> {
    tasks.map_values(|e: (String, Task)| task_view(e))
}

/// The index of the first task named `name` in a list of tasks as text.
pub open spec fn text_index(ts: Seq<(Seq<char>, Seq<Seq<char>>, Seq<Seq<char>>)>, name: Seq<char>) -> Option<int>
    decreases ts.len(),
{
    if ts.len() == 0 {
        None
    } else {
        match text_index(ts.drop_last(), name) {
            Some(i) => Some(i),
            None => if ts.last().0 == name {
                Some(ts.len() - 1)
            } else {
                None
            },
        }
    }
}

proof fn lemma_text_index(tasks: Seq<(String, Task)>, name: Seq<char>)
    ensures
        task_index(tasks, name) == text_index(task_views(tasks), name),
    decreases tasks.len(),
{
    if tasks.len() > 0 {
        assert(task_views(tasks).drop_last() =~= task_views(tasks.drop_last()));
        lemma_text_index(tasks.drop_last(), name);
    }
}

/// The tasks with an empty task named `name` added unless one exists.
pub open spec fn with_task(ts: Seq<(Seq<char>, Seq<Seq<char>>, Seq<Seq<char>>)>, name: Seq<char>) -> Seq<(Seq<char>, Seq<Seq<char>>, Seq<Seq<char>>)> {
    match text_index(ts, name) {
        Some(_) => ts,
        None => ts.push((name, Seq::empty(), Seq::empty())),
    }
}

/// The index of the task named `name` once it is added.
pub open spec fn task_at(ts: Seq<(Seq<char>, Seq<Seq<char>>, Seq<Seq<char>>)>, name: Seq<char>) -> int {
    match text_index(ts, name) {
        Some(i) => i,
        None => ts.len() as int,
    }
}

/// The tasks with a dependency added to the `i`th.
pub open spec fn with_dependency(ts: Seq<(Seq<char>, Seq<Seq<char>>, Seq<Seq<char>>)>, i: int, d: Seq<char>) -> Seq<(Seq<char>, Seq<Seq<char>>, Seq<Seq<char>>)> {
    ts.update(i, (ts[i].0, ts[i].1.push(d), ts[i].2))
}

/// The tasks with a command added to the `i`th.
pub open spec fn with_command(ts: Seq<(Seq<char>, Seq<Seq<char>>, Seq<Seq<char>>)>, i: int, c: Seq<char>) -> Seq<(Seq<char>, Seq<Seq<char>>, Seq<Seq<char>>)> {
    ts.update(i, (ts[i].0, ts[i].1, ts[i].2.push(c)))
}

/// A text without its trailing colons.
pub open spec fn without_colons(s: Seq<char>) -> Seq<char>
    decreases s.len(),
{
    if s.len() > 0 && s.last() == ':' {
        without_colons(s.drop_last())
    } else {
        s
    }
}

/// Where the lines of a `run:` block that starts at line `j` end: at the
/// first line that is not blank and is indented at most `indent` bytes.
pub open spec fn block_end(lines: Seq<Seq<char>>, j: int, indent: nat) -> int
    decreases lines.len() - j,
{
    if j < 0 || j >= lines.len() {
        lines.len() as int
    } else if text::trim(lines[j]).len() > 0 && byte_indent(lines[j]) <= indent {
        j
    } else {
        block_end(lines, j + 1, indent)
    }
}

pub proof fn lemma_block_end(lines: Seq<Seq<char>>, j: int, indent: nat)
    requires
        0 <= j <= lines.len(),
    ensures
        j <= block_end(lines, j, indent) <= lines.len(),
    decreases lines.len() - j,
{
    if j < lines.len() {
        lemma_block_end(lines, j + 1, indent);
    }
}

/// The command that a `run:` block makes: after `acc`, the trimmed lines
/// that are not blank, from line `j` up to `end`, one per line.
pub open spec fn block_text(lines: Seq<Seq<char>>, j: int, end: int, acc: Seq<char>) -> Seq<char>
    decreases end - j,
{
    if j < 0 || j >= end || j >= lines.len() {
        acc
    } else if text::trim(lines[j]).len() == 0 {
        block_text(lines, j + 1, end, acc)
    } else {
        block_text(lines, j + 1, end, (if acc.len() > 0 { acc.push('\n') } else { acc }) + text::trim(lines[j]))
    }
}

/// Reading the `tasks:` map line by line from line `i`: whether the map
/// has started and how far it is indented, the task that lines add to and
/// how far its name is indented. `None` when an entry comes before any
/// task name.
pub open spec fn task_scan(
    lines: Seq<Seq<char>>,
    i: int,
    ts: Seq<(Seq<char>, Seq<Seq<char>>, Seq<Seq<char>>)>,
    in_tasks: bool,
    tasks_indent: nat,
    current: Option<int>,
    task_indent: nat,
) -> Option<Seq<(Seq<char>, Seq<Seq<char>>, Seq<Seq<char>>)>>
    decreases lines.len() - i,
{
    if i < 0 || i >= lines.len() {
        Some(ts)
    } else {
        let t = text::trim(lines[i]);
        let indent = byte_indent(lines[i]);
        if t.len() == 0 || t[0] == '#' {
            task_scan(lines, i + 1, ts, in_tasks, tasks_indent, current, task_indent)
        } else if t == "tasks:"@ {
            task_scan(lines, i + 1, ts, true, indent, current, task_indent)
        } else if !in_tasks {
            task_scan(lines, i + 1, ts, in_tasks, tasks_indent, current, task_indent)
        } else if indent <= tasks_indent {
            Some(ts)
        } else if t.last() == ':' && !text::has_prefix(t, "run:"@) {
            let name = without_colons(t);
            task_scan(lines, i + 1, with_task(ts, name), in_tasks, tasks_indent, Some(task_at(ts, name)), indent)
        } else if current is None {
            None
        } else if indent <= task_indent {
            task_scan(lines, i + 1, ts, in_tasks, tasks_indent, current, task_indent)
        } else if text::has_prefix(t, "@nox"@) {
            let d = text::trim(t.skip(4));
            task_scan(
                lines,
                i + 1,
                if d.len() > 0 { with_dependency(ts, current->0, d) } else { ts },
                in_tasks,
                tasks_indent,
                current,
                task_indent,
            )
        } else if text::has_prefix(t, "run:"@) {
            let v = text::trim(t.skip(4));
            let first = if v == "|"@ || v == ">"@ { Seq::empty() } else { unquoted(v) };
            let end = block_end(lines, i + 1, indent);
            let c = block_text(lines, i + 1, end, first);
            proof {
                lemma_block_end(lines, i + 1, indent);
            }
            task_scan(
                lines,
                end,
                if c.len() > 0 { with_command(ts, current->0, c) } else { ts },
                in_tasks,
                tasks_indent,
                current,
                task_indent,
            )
        } else {
            task_scan(lines, i + 1, ts, in_tasks, tasks_indent, current, task_indent)
        }
    }
}

/// The tasks of a `tasks:` map, read from the lines of a noxfile.
pub open spec fn tasks_map(s: Seq<char>) -> Option<Seq<(Seq<char>, Seq<Seq<char>>, Seq<Seq<char>>)>> {
    task_scan(text::lines(s), 0, Seq::empty(), false, 0, None, 0)
}

pub open spec fn opt_index(c: Option<usize>) -> Option<int> {
    match c {
        Some(k) => Some(k as int),
        None => None,
    }
}

/// Adds an empty task unless one of that name exists; the index of the task.
fn ensure_task(tasks: &mut Vec<(String, Task)>, name: String) -> (r: usize)
    requires
        unique_names(old(tasks)@),
    ensures
        unique_names(final(tasks)@),
        r < final(tasks)@.len(),
        final(tasks)@[r as int].0@ == name@,
        task_views(final(tasks)@) == with_task(task_views(old(tasks)@), name@),
        r as int == task_at(task_views(old(tasks)@), name@),
        task_names(final(tasks)@) == task_names(old(tasks)@) || task_names(final(tasks)@) == task_names(
            old(tasks)@,
        ).push(name@),
{
    proof {
        lemma_task_index(tasks@, name@);
        lemma_text_index(tasks@, name@);
    }
    match position(tasks, name.as_str()) {
        Some(i) => i,
        None => {
            let ghost before = tasks@;
            tasks.push((name, Task { dependencies: Vec::new(), commands: Vec::new() }));
            assert(task_names(tasks@) == task_names(before).push(tasks@.last().0@));
            assert(task_views(tasks@) =~= task_views(before).push(task_view(tasks@.last())));
            assert(text::views(Seq::<String>::empty()) =~= Seq::<Seq<char>>::empty());
            tasks.len() - 1
        },
    }
}

/// Adds a dependency to the `i`th task.
fn add_dependency(tasks: &mut Vec<(String, Task)>, i: usize, dependency: String)
    requires
        i < old(tasks)@.len(),
    ensures
        task_views(final(tasks)@) == with_dependency(task_views(old(tasks)@), i as int, dependency@),
        task_names(final(tasks)@) == task_names(old(tasks)@),
{
    let ghost before = tasks@;
    let mut entry = tasks.remove(i);
    let ghost deps = entry.1.dependencies@;
    entry.1.dependencies.push(dependency);
    assert(text::views(entry.1.dependencies@) =~= text::views(deps).push(dependency@));
    tasks.insert(i, entry);
    assert(tasks@ =~= before.update(i as int, entry));
    assert(task_views(tasks@) =~= with_dependency(task_views(before), i as int, dependency@));
    assert(task_names(tasks@) =~= task_names(before));
}

/// Adds a command to the `i`th task.
fn add_command(tasks: &mut Vec<(String, Task)>, i: usize, command: String)
    requires
        i < old(tasks)@.len(),
    ensures
        task_views(final(tasks)@) == with_command(task_views(old(tasks)@), i as int, command@),
        task_names(final(tasks)@) == task_names(old(tasks)@),
{
    let ghost before = tasks@;
    let mut entry = tasks.remove(i);
    let ghost commands = entry.1.commands@;
    entry.1.commands.push(command);
    assert(text::views(entry.1.commands@) =~= text::views(commands).push(command@));
    tasks.insert(i, entry);
    assert(tasks@ =~= before.update(i as int, entry));
    assert(task_views(tasks@) =~= with_command(task_views(before), i as int, command@));
    assert(task_names(tasks@) =~= task_names(before));
}

/// Reads the `tasks:` map of a noxfile: task names one level in, then
/// `@nox NAME` dependencies and `run:` commands further in; a `run: |` or
/// `run: >` collects the more-indented lines that follow as one command.
pub fn parse_tasks(text_in: &str) -> (r: Result<Vec<(String, Task)>, Error>)
    ensures
        r matches Ok(tasks) ==> unique_names(tasks@),
        match tasks_map(text_in@) {
            Some(ts) => r matches Ok(tasks) && task_views(tasks@) == ts,
            None => r matches Err(e) && e == Error::Parse(e->Parse_0) && e->Parse_0@
                == "task entry appears before a task name"@,
        },
{
    proof {
        reveal_strlit("run:");
        reveal_strlit("@nox");
        reveal_strlit("|");
        reveal_strlit(">");
    }
    let chars = text::chars_of(text_in);
    let lines = text::split_lines(&chars);
    let ghost ls = lines@.map_values(|l: Vec<char>| l@);
    assert(ls == text::lines(text_in@));
    let mut tasks: Vec<(String, Task)> = Vec::new();
    let mut in_tasks = false;
    let mut tasks_indent: u128 = 0;
    let mut current: Option<usize> = None;
    let mut task_indent: u128 = 0;
    let mut index: usize = 0;
    assert(task_views(tasks@) =~= Seq::empty());
    while index < lines.len()
        invariant
            index <= lines@.len(),
            ls == lines@.map_values(|l: Vec<char>| l@),
            unique_names(tasks@),
            current matches Some(c) ==> c < tasks@.len(),
            tasks_map(text_in@) == task_scan(ls, 0, Seq::empty(), false, 0, None, 0),
            task_scan(ls, 0, Seq::empty(), false, 0, None, 0) == task_scan(
                ls,
                index as int,
                task_views(tasks@),
                in_tasks,
                tasks_indent as nat,
                opt_index(current),
                task_indent as nat,
            ),
        decreases lines@.len() - index,
    {
        proof {
            reveal_strlit("run:");
            reveal_strlit("@nox");
            reveal_strlit("|");
            reveal_strlit(">");
        }
        let line = &lines[index];
        assert(line@ == ls[index as int]);
        let trimmed = text::trim_chars(line);
        if trimmed.len() == 0 || trimmed[0] == '#' {
            index = index + 1;
            continue;
        }
        let indent = byte_indent_of(line);
        if text::same_chars(&trimmed, &text::chars_of("tasks:")) {
            in_tasks = true;
            tasks_indent = indent;
            index = index + 1;
            continue;
        }
        if !in_tasks {
            index = index + 1;
            continue;
        }
        if indent <= tasks_indent {
            return Ok(tasks);
        }
        let run_prefix = text::chars_of("run:");
        if trimmed[trimmed.len() - 1] == ':' && !text::starts_with(&trimmed, &run_prefix) {
            assert(trimmed@.last() == ':');
            let name_chars = text::slice_chars(&trimmed, 0, trimmed_name_end(&trimmed));
            let position = ensure_task(&mut tasks, text::string_of(&name_chars));
            current = Some(position);
            task_indent = indent;
            index = index + 1;
            continue;
        }
        let position = match current {
            Some(p) => p,
            None => {
                return Err(Error::Parse(text::owned("task entry appears before a task name")));
            },
        };
        if indent <= task_indent {
            index = index + 1;
            continue;
        }
        let nox_prefix = text::chars_of("@nox");
        if text::starts_with(&trimmed, &nox_prefix) {
            let rest = text::slice_chars(&trimmed, 4, trimmed.len());
            assert(rest@ == trimmed@.skip(4));
            let dependency = text::trim_chars(&rest);
            if dependency.len() > 0 {
                add_dependency(&mut tasks, position, text::string_of(&dependency));
            }
            index = index + 1;
        } else if text::starts_with(&trimmed, &run_prefix) {
            let run_indent = indent;
            let rest = text::slice_chars(&trimmed, 4, trimmed.len());
            assert(rest@ == trimmed@.skip(4));
            let value = text::trim_chars(&rest);
            let value_text = text::string_of(&value);
            let mut command = if text::same(value_text.as_str(), "|") || text::same(value_text.as_str(), ">") {
                String::new()
            } else {
                unquote(value_text.as_str())
            };
            let ghost first = command@;
            index = index + 1;
            let after_run = index;
            let ghost end = block_end(ls, after_run as int, run_indent as nat);
            proof {
                lemma_block_end(ls, after_run as int, run_indent as nat);
            }
            while index < lines.len()
                invariant
                    after_run <= index <= lines@.len(),
                    ls == lines@.map_values(|l: Vec<char>| l@),
                    end == block_end(ls, after_run as int, run_indent as nat),
                    end == block_end(ls, index as int, run_indent as nat),
                    index <= end <= lines@.len(),
                    block_text(ls, after_run as int, end, first) == block_text(ls, index as int, end, command@),
                ensures
                    index == end,
                    block_text(ls, after_run as int, end, first) == command@,
                decreases lines@.len() - index,
            {
                let continuation = &lines[index];
                assert(continuation@ == ls[index as int]);
                let continuation_trimmed = text::trim_chars(continuation);
                let continuation_indent = byte_indent_of(continuation);
                if continuation_trimmed.len() == 0 {
                    proof {
                        lemma_block_end(ls, index + 1, run_indent as nat);
                    }
                    index = index + 1;
                    continue;
                }
                if continuation_indent <= run_indent {
                    break;
                }
                proof {
                    lemma_block_end(ls, index + 1, run_indent as nat);
                }
                let ghost before = command@;
                if command.as_str().unicode_len() > 0 {
                    text::push_char(&mut command, '\n');
                }
                let piece = text::string_of(&continuation_trimmed);
                text::push_str(&mut command, piece.as_str());
                assert(command@ == (if before.len() > 0 { before.push('\n') } else { before }) + text::trim(ls[index as int]));
                index = index + 1;
            }
            if command.as_str().unicode_len() > 0 {
                add_command(&mut tasks, position, command);
            }
        } else {
            index = index + 1;
        }
    }
    Ok(tasks)
}

/// The length of a task name line without its trailing colons.
fn trimmed_name_end(s: &Vec<char>) -> (r: usize)
    ensures
        r <= s@.len(),
        s@.take(r as int) == without_colons(s@),
{
    let mut end = s.len();
    assert(s@.take(end as int) =~= s@);
    while end > 0 && s[end - 1] == ':'
        invariant
            end <= s@.len(),
            without_colons(s@) == without_colons(s@.take(end as int)),
        decreases end,
    {
        assert(s@.take(end as int).drop_last() =~= s@.take(end - 1));
        end = end - 1;
    }
    end
}

/// The task that a block of the older form defines: the name up to the
/// first quote, and the command between the first `run = "` after it and
/// the next quote.
pub open spec fn legacy_entry(block: Seq<char>) -> Option<(Seq<char>, Seq<char>)> {
    match text::split_once(block, '"') {
        Some((name, body)) => match text::find_from(body, "run = \""@, 0) {
            Some(m) => Some((name, body.subrange(m + 7, text::char_end(body, '"', m + 7)))),
            None => None,
        },
        None => None,
    }
}

/// The tasks with the task `name` set to run `command`, in place of one of
/// that name or after the others.
pub open spec fn set_task(ts: Seq<(Seq<char>, Seq<Seq<char>>, Seq<Seq<char>>)>, name: Seq<char>, command: Seq<char>) -> Seq<(Seq<char>, Seq<Seq<char>>, Seq<Seq<char>>)> {
    match text_index(ts, name) {
        Some(i) => ts.update(i, (name, Seq::empty(), seq![command])),
        None => ts.push((name, Seq::empty(), seq![command])),
    }
}

/// Reading tasks of the older form from the block that starts at `start`
/// (just after a `task "`) up to the next `task "`.
pub open spec fn legacy_scan(s: Seq<char>, start: int, ts: Seq<(Seq<char>, Seq<Seq<char>>, Seq<Seq<char>>)>) -> Seq<(Seq<char>, Seq<Seq<char>>, Seq<Seq<char>>)>
    decreases s.len() - start,
{
    if start < 0 || start >= s.len() {
        ts
    } else {
        let next = text::find_from(s, "task \""@, start);
        let end = match next {
            Some(k) => k,
            None => s.len() as int,
        };
        let updated = match legacy_entry(s.subrange(start, end)) {
            Some((name, command)) => set_task(ts, name, command),
            None => ts,
        };
        proof {
            reveal_strlit("task \"");
            text::lemma_find_from(s, "task \""@, start);
        }
        legacy_scan(
            s,
            match next {
                Some(k) => k + 6,
                None => s.len() as int,
            },
            updated,
        )
    }
}

/// The tasks of the older `task "NAME" { run = "COMMAND" }` form.
pub open spec fn legacy_map(s: Seq<char>) -> Seq<(Seq<char>, Seq<Seq<char>>, Seq<Seq<char>>)> {
    legacy_scan(
        s,
        match text::find_from(s, "task \""@, 0) {
            Some(k) => k + 6,
            None => s.len() as int,
        },
        Seq::empty(),
    )
}

/// Tasks in the older `task "NAME" { run = "COMMAND" }` form; a later task
/// of the same name replaces an earlier one.
pub fn legacy_tasks(text_in: &str) -> (r: Vec<(String, Task)>)
    ensures
        unique_names(r@),
        task_views(r@) == legacy_map(text_in@),
{
    proof {
        reveal_strlit("task \"");
        reveal_strlit("run = \"");
    }
    let cs = text::chars_of(text_in);
    let opener = text::chars_of("task \"");
    let run_marker = text::chars_of("run = \"");
    let mut tasks: Vec<(String, Task)> = Vec::new();
    let total = cs.len();
    let first = text::find(cs.as_slice(), opener.as_slice(), 0);
    let mut start = match first {
        Some(k) => {
            assert(k + opener@.len() <= total);
            k + opener.len()
        },
        None => cs.len(),
    };
    assert(task_views(tasks@) =~= Seq::empty());
    while start < cs.len()
        invariant
            start <= cs@.len(),
            cs@ == text_in@,
            opener@ == "task \""@,
            run_marker@ == "run = \""@,
            opener@.len() == 6,
            run_marker@.len() == 7,
            unique_names(tasks@),
            legacy_map(text_in@) == legacy_scan(cs@, start as int, task_views(tasks@)),
        decreases cs@.len() - start,
    {
        let next = text::find(cs.as_slice(), opener.as_slice(), start);
        proof {
            text::lemma_find_from(cs@, opener@, start as int);
        }
        let end = match next {
            Some(k) => k,
            None => cs.len(),
        };
        let block = text::slice_chars(&cs, start, end);
        match text::split_once_char(&block, '"') {
            Some((name, body)) => {
                let body_len = body.len();
                match text::find(body.as_slice(), run_marker.as_slice(), 0) {
                    Some(m) => {
                        assert(m + run_marker@.len() <= body_len);
                        let value_start = m + run_marker.len();
                        let value_end = text::find_char(&body, '"', value_start);
                        let command = text::slice_chars(&body, value_start, value_end);
                        let name_text = text::string_of(&name);
                        let mut commands: Vec<String> = Vec::new();
                        commands.push(text::string_of(&command));
                        let task = Task { dependencies: Vec::new(), commands };
                        assert(text::views(task.commands@) =~= seq![command@]);
                        assert(text::views(task.dependencies@) =~= Seq::<Seq<char>>::empty());
                        proof {
                            lemma_task_index(tasks@, name_text@);
                            lemma_text_index(tasks@, name_text@);
                        }
                        match position(&tasks, name_text.as_str()) {
                            Some(p) => {
                                let ghost names = task_names(tasks@);
                                let ghost views = task_views(tasks@);
                                tasks.set(p, (name_text, task));
                                assert(task_names(tasks@) =~= names);
                                assert(task_views(tasks@) =~= views.update(p as int, (name@, Seq::empty(), seq![command@])));
                            },
                            None => {
                                let ghost before = tasks@;
                                tasks.push((name_text, task));
                                assert(task_names(tasks@) == task_names(before).push(tasks@.last().0@));
                                assert(task_views(tasks@) =~= task_views(before).push((name@, Seq::empty(), seq![command@])));
                            },
                        }
                    },
                    None => {},
                }
            },
            None => {},
        }
        start = match next {
            Some(k) => k + opener.len(),
            None => cs.len(),
        };
    }
    tasks
}

/// The tasks of a noxfile's text: the `tasks:` map, or the older form when
/// the map has none.
pub open spec fn noxfile_map(s: Seq<char>) -> Option<Seq<(Seq<char>, Seq<Seq<char>>, Seq<Seq<char>>)>> {
    match tasks_map(s) {
        Some(ts) => if ts.len() == 0 {
            Some(legacy_map(s))
        } else {
            Some(ts)
        },
        None => None,
    }
}

/// The names of tasks as text.
pub open spec fn text_names(ts: Seq<(Seq<char>, Seq<Seq<char>>, Seq<Seq<char>>)>) -> Seq<Seq<char>> {
    ts.map_values(|t: (Seq<char>, Seq<Seq<char>>, Seq<Seq<char>>)| t.0)
}

/// The tasks of a noxfile: the `tasks:` map, or the older form when the
/// map has none.
pub fn noxfile_tasks(text_in: &str) -> (r: Result<Vec<(String, Task)>, Error>)
    ensures
        r matches Ok(tasks) ==> unique_names(tasks@),
        match noxfile_map(text_in@) {
            Some(ts) => r matches Ok(tasks) && task_views(tasks@) == ts,
            None => r matches Err(e) && e == Error::Parse(e->Parse_0) && e->Parse_0@
                == "task entry appears before a task name"@,
        },
{
    let tasks = parse_tasks(text_in)?;
    if tasks.len() == 0 {
        Ok(legacy_tasks(text_in))
    } else {
        Ok(tasks)
    }
}

/// The task names of a noxfile in ascending order.
pub fn list_tasks(text_in: &str) -> (r: Result<Vec<String>, Error>)
    ensures
        r matches Ok(names) ==> text::sorted_texts(names@) && names@.len() == text::views(names@).len()
            && text::views(names@).no_duplicates(),
        match noxfile_map(text_in@) {
            Some(ts) => r matches Ok(names) && text::views(names@).to_multiset() == text_names(ts).to_multiset(),
            None => r matches Err(e) && e == Error::Parse(e->Parse_0) && e->Parse_0@
                == "task entry appears before a task name"@,
        },
{
    let tasks = noxfile_tasks(text_in)?;
    let mut names: Vec<String> = Vec::new();
    let mut i: usize = 0;
    while i < tasks.len()
        invariant
            i <= tasks@.len(),
            text::views(names@) == task_names(tasks@).take(i as int),
        decreases tasks@.len() - i,
    {
        let ghost before = names@;
        names.push(tasks[i].0.clone());
        assert(text::views(names@) == text::views(before).push(tasks@[i as int].0@));
        assert(task_names(tasks@).take(i + 1) == task_names(tasks@).take(i as int).push(tasks@[i as int].0@));
        i = i + 1;
    }
    assert(task_names(tasks@).take(tasks@.len() as int) == task_names(tasks@));
    assert(task_names(tasks@) =~= text_names(task_views(tasks@)));
    let sorted = text::sort_strings(names);
    proof {
        assert(text::views(sorted@).to_multiset() == text::views(names@).to_multiset());
        lemma_no_duplicates_multiset(text::views(names@), text::views(sorted@));
    }
    Ok(sorted)
}

proof fn lemma_no_duplicates_multiset(a: Seq<Seq<char>>, b: Seq<Seq<char>>)
    requires
        a.no_duplicates(),
        a.to_multiset() == b.to_multiset(),
    ensures
        b.no_duplicates(),
{
    a.lemma_multiset_has_no_duplicates();
    b.lemma_multiset_has_no_duplicates_conv();
}

// ------------------------------------------------------------ commands

/// `{{NAME}}`.
pub open spec fn placeholder(name: Seq<char>) -> Seq<char> {
    seq!['{', '{'] + name + seq!['}', '}']
}

/// The string settings substituted in order.
pub open spec fn with_settings(s: Seq<char>, settings: Seq<(String, Setting)>) -> Seq<char>
    decreases settings.len(),
{
    if settings.len() == 0 {
        s
    } else {
        let before = with_settings(s, settings.drop_last());
        match settings.last().1 {
            Setting::String(v) => text::replace(before, placeholder(settings.last().0@), v@),
            Setting::List(_) => before,
        }
    }
}

/// A task command with `{{build_dir}}`, `{{version}}` and the string
/// settings filled in.
pub open spec fn interpolated(
    command: Seq<char>,
    version: Seq<char>,
    settings: Seq<(String, Setting)>,
    build_dir: Seq<char>,
) -> Seq<char> {
    with_settings(
        text::replace(text::replace(command, "{{build_dir}}"@, build_dir), "{{version}}"@, version),
        settings,
    )
}

fn placeholder_text(name: &str) -> (r: String)
    ensures
        r@ == placeholder(name@),
{
    let mut out = String::new();
    text::push_char(&mut out, '{');
    text::push_char(&mut out, '{');
    text::push_str(&mut out, name);
    text::push_char(&mut out, '}');
    text::push_char(&mut out, '}');
    out
}

/// Fills `{{build_dir}}`, `{{version}}` and `{{NAME}}` for each string
/// setting, in the settings' order.
pub fn interpolate(command: &str, version: &str, settings: &Vec<(String, Setting)>, build_dir: &str) -> (r: String)
    ensures
        r@ == interpolated(command@, version@, settings@, build_dir@),
{
    proof {
        reveal_strlit("{{build_dir}}");
        reveal_strlit("{{version}}");
    }
    let first = text::replace_str(command, "{{build_dir}}", build_dir);
    let mut result = text::replace_str(first.as_str(), "{{version}}", version);
    let ghost base = result@;
    let mut i: usize = 0;
    while i < settings.len()
        invariant
            i <= settings@.len(),
            result@ == with_settings(base, settings@.take(i as int)),
        decreases settings@.len() - i,
    {
        assert(settings@.take(i + 1).drop_last() == settings@.take(i as int));
        match &settings[i].1 {
            Setting::String(value) => {
                let pattern = placeholder_text(settings[i].0.as_str());
                result = text::replace_str(result.as_str(), pattern.as_str(), value.as_str());
            },
            Setting::List(_) => {},
        }
        i = i + 1;
    }
    assert(settings@.take(settings@.len() as int) == settings@);
    result
}

/// The end of the run of non-whitespace characters from `i`.
pub open spec fn word_end(s: Seq<char>, i: int) -> int
    decreases s.len() - i,
{
    if 0 <= i < s.len() && !is_ws(s[i]) {
        word_end(s, i + 1)
    } else {
        i
    }
}

/// `str::split_whitespace` from `i`.
pub open spec fn words_from(s: Seq<char>, i: int) -> Seq<Seq<char>>
    decreases s.len() - i, 1nat,
{
    let start = text::ws_run(s, i);
    if start < 0 || start >= s.len() || start < i || is_ws(s[start]) {
        Seq::empty()
    } else {
        proof {
            lemma_word_end(s, start);
        }
        seq![s.subrange(start, word_end(s, start))] + words_from(s, word_end(s, start))
    }
}

pub proof fn lemma_word_end(s: Seq<char>, i: int)
    requires
        0 <= i < s.len(),
        !is_ws(s[i]),
    ensures
        i < word_end(s, i) <= s.len(),
    decreases s.len() - i,
{
    if i + 1 < s.len() && !is_ws(s[i + 1]) {
        lemma_word_end(s, i + 1);
    } else {
        assert(word_end(s, i + 1) == i + 1);
    }
}

/// The whitespace-separated words of a text.
pub fn words(s: &str) -> (r: Vec<String>)
    ensures
        text::views(r@) == words_from(s@, 0),
{
    let cs = text::chars_of(s);
    let n = cs.len();
    let mut out: Vec<String> = Vec::new();
    let mut i: usize = 0;
    while i < n
        invariant
            i <= n,
            n == cs@.len(),
            cs@ == s@,
            text::views(out@) + words_from(cs@, i as int) == words_from(cs@, 0),
        decreases n - i,
    {
        let start = text::skip_ws(&cs, i);
        proof {
            text::lemma_ws_run_bounds(cs@, i as int);
        }
        if start >= n {
            assert(words_from(cs@, i as int) == Seq::<Seq<char>>::empty());
            i = n;
        } else {
            let mut end = start;
            while end < n && !text::whitespace(cs[end])
                invariant
                    start <= end <= n,
                    n == cs@.len(),
                    word_end(cs@, end as int) == word_end(cs@, start as int),
                decreases n - end,
            {
                end = end + 1;
            }
            proof {
                lemma_word_end(cs@, start as int);
            }
            let word = text::slice_chars(&cs, start, end);
            let ghost before = out@;
            out.push(text::string_of(&word));
            assert(text::views(out@) == text::views(before).push(word@));
            i = end;
        }
    }
    assert(words_from(cs@, n as int) == Seq::<Seq<char>>::empty()) by {
        text::lemma_ws_run_bounds(cs@, n as int);
    }
    out
}

/// What running a task does, in order.
pub enum TaskStep {
    /// Runs Nox itself with these arguments (command name first).
    Nox(Vec<String>),
    /// Runs a shell command.
    Shell(String),
}

/// The steps of a task and, if it fails partway, the error that follows
/// them once they have all succeeded.
pub struct TaskPlan {
    pub steps: Vec<TaskStep>,
    pub failure: Option<Error>,
}

/// A step as text.
pub enum StepText {
    Nox(Seq<Seq<char>>),
    Shell(Seq<char>),
}

pub open spec fn step_text(s: TaskStep) -> StepText {
    match s {
        TaskStep::Nox(arguments) => StepText::Nox(text::views(arguments@)),
        TaskStep::Shell(command) => StepText::Shell(command@),
    }
}

pub open spec fn step_texts(steps: Seq<TaskStep>) -> Seq<StepText> {
    steps.map_values(|s: TaskStep| step_text(s))
}

/// The shell steps of a task's commands, with placeholders filled in.
pub open spec fn command_steps(
    commands: Seq<String>,
    version: Seq<char>,
    settings: Seq<(String, Setting)>,
    build_dir: Seq<char>,
) -> Seq<StepText> {
    commands.map_values(|c: String| StepText::Shell(interpolated(c@, version, settings, build_dir)))
}

/// Planning the task `name` after `steps`, with the tasks already
/// `completed` and those being planned on the `active` stack: the steps
/// after planning, the completed tasks, and the failure if there is one.
/// A completed task adds nothing; a task on the stack is a cycle; an
/// unknown name is an error; otherwise the dependencies come first, then
/// the task's commands.
pub open spec fn plan_spec(
    tasks: Seq<(String, Task)>,
    name: Seq<char>,
    version: Seq<char>,
    settings: Seq<(String, Setting)>,
    build_dir: Seq<char>,
    completed: Seq<Seq<char>>,
    active: Seq<Seq<char>>,
    steps: Seq<StepText>,
) -> (Seq<StepText>, Seq<Seq<char>>, Option<Seq<char>>)
    decreases text::unvisited(task_names(tasks), active), 0int,
{
    if completed.contains(name) {
        (steps, completed, None)
    } else if active.contains(name) {
        (steps, completed, Some("task dependency cycle: "@ + text::join(active, " -> "@) + " -> "@ + name))
    } else {
        match task_index(tasks, name) {
            None => (steps, completed, Some("task '"@ + name + "' was not found"@)),
            Some(i) => {
                proof {
                    lemma_task_index(tasks, name);
                    if 0 <= i < tasks.len() {
                        assert(task_names(tasks)[i] == name);
                    }
                    text::lemma_unvisited_push(task_names(tasks), active, name);
                }
                if 0 <= i < tasks.len() {
                    let planned = plan_deps(
                        tasks,
                        text::views(tasks[i].1.dependencies@),
                        0,
                        version,
                        settings,
                        build_dir,
                        completed,
                        active.push(name),
                        steps,
                    );
                    match planned.2 {
                        Some(m) => planned,
                        None => (
                            planned.0 + command_steps(tasks[i].1.commands@, version, settings, build_dir),
                            planned.1.push(name),
                            None,
                        ),
                    }
                } else {
                    (steps, completed, None)
                }
            },
        }
    }
}

/// Planning the dependencies of a task from the `d`th on: a dependency
/// that names a task is planned as one, any other runs as a Nox command.
pub open spec fn plan_deps(
    tasks: Seq<(String, Task)>,
    deps: Seq<Seq<char>>,
    d: int,
    version: Seq<char>,
    settings: Seq<(String, Setting)>,
    build_dir: Seq<char>,
    completed: Seq<Seq<char>>,
    active: Seq<Seq<char>>,
    steps: Seq<StepText>,
) -> (Seq<StepText>, Seq<Seq<char>>, Option<Seq<char>>)
    decreases text::unvisited(task_names(tasks), active), deps.len() - d + 1,
{
    if d < 0 || d >= deps.len() {
        (steps, completed, None)
    } else if task_index(tasks, deps[d]) is Some {
        let planned = plan_spec(tasks, deps[d], version, settings, build_dir, completed, active, steps);
        match planned.2 {
            Some(m) => planned,
            None => plan_deps(tasks, deps, d + 1, version, settings, build_dir, planned.1, active, planned.0),
        }
    } else {
        let ws = words_from(deps[d], 0);
        plan_deps(
            tasks,
            deps,
            d + 1,
            version,
            settings,
            build_dir,
            completed,
            active,
            if ws.len() > 0 { steps.push(StepText::Nox(ws)) } else { steps },
        )
    }
}

fn join_active(active: &Vec<String>) -> (r: String)
    ensures
        r@ == text::join(text::views(active@), " -> "@),
{
    text::join_strings(active, " -> ")
}

fn contains_name(names: &Vec<String>, name: &str) -> (r: bool)
    ensures
        r == text::views(names@).contains(name@),
{
    let mut i: usize = 0;
    while i < names.len()
        invariant
            i <= names@.len(),
            forall|j: int| 0 <= j < i ==> names@[j]@ != name@,
        decreases names@.len() - i,
    {
        if text::same(names[i].as_str(), name) {
            assert(text::views(names@)[i as int] == name@);
            return true;
        }
        i = i + 1;
    }
    proof {
        if text::views(names@).contains(name@) {
            let j = choose|j: int| 0 <= j < text::views(names@).len() && text::views(names@)[j] == name@;
            assert(names@[j]@ == name@);
        }
    }
    false
}

fn plan_named(
    name: &str,
    tasks: &Vec<(String, Task)>,
    version: &str,
    settings: &Vec<(String, Setting)>,
    build_dir: &str,
    completed: &mut Vec<String>,
    active: &mut Vec<String>,
    steps: &mut Vec<TaskStep>,
) -> (r: Result<(), Error>)
    ensures
        ({
            let planned = plan_spec(
                tasks@,
                name@,
                version@,
                settings@,
                build_dir@,
                text::views(old(completed)@),
                text::views(old(active)@),
                step_texts(old(steps)@),
            );
            &&& step_texts(final(steps)@) == planned.0
            &&& match planned.2 {
                None => r is Ok && text::views(final(completed)@) == planned.1 && text::views(final(active)@)
                    == text::views(old(active)@),
                Some(m) => r matches Err(Error::Config(e)) && e@ == m,
            }
        }),
    decreases text::unvisited(task_names(tasks@), text::views(old(active)@)),
{
    if contains_name(completed, name) {
        return Ok(());
    }
    if contains_name(active, name) {
        let mut m = text::owned("task dependency cycle: ");
        let chain = join_active(active);
        text::push_str(&mut m, chain.as_str());
        text::push_str(&mut m, " -> ");
        text::push_str(&mut m, name);
        return Err(Error::Config(m));
    }
    proof {
        lemma_task_index(tasks@, name@);
    }
    let index = match position(tasks, name) {
        Some(i) => i,
        None => {
            let mut m = text::owned("task '");
            text::push_str(&mut m, name);
            text::push_str(&mut m, "' was not found");
            return Err(Error::Config(m));
        },
    };
    let ghost outer = text::views(active@);
    let ghost start_completed = text::views(completed@);
    let ghost start_steps = step_texts(steps@);
    active.push(text::owned(name));
    proof {
        assert(text::views(active@) == outer.push(name@));
        assert(task_names(tasks@)[index as int] == name@);
        text::lemma_unvisited_push(task_names(tasks@), outer, name@);
    }
    let task = &tasks[index].1;
    let ghost deps = text::views(task.dependencies@);
    let ghost whole = plan_deps(tasks@, deps, 0, version@, settings@, build_dir@, start_completed, outer.push(name@), start_steps);
    let mut d: usize = 0;
    while d < task.dependencies.len()
        invariant
            d <= task.dependencies@.len(),
            deps == text::views(task.dependencies@),
            task_index(tasks@, name@) == Some(index as int),
            index < tasks@.len(),
            *task == tasks@[index as int].1,
            text::views(active@) == outer.push(name@),
            text::unvisited(task_names(tasks@), outer.push(name@)) < text::unvisited(task_names(tasks@), outer),
            outer == text::views(old(active)@),
            start_completed == text::views(old(completed)@),
            start_steps == step_texts(old(steps)@),
            !start_completed.contains(name@),
            !outer.contains(name@),
            whole == plan_deps(tasks@, deps, 0, version@, settings@, build_dir@, start_completed, outer.push(name@), start_steps),
            whole == plan_deps(tasks@, deps, d as int, version@, settings@, build_dir@, text::views(completed@), outer.push(name@), step_texts(steps@)),
        decreases task.dependencies@.len() - d,
    {
        let dependency = task.dependencies[d].as_str();
        proof {
            lemma_task_index(tasks@, dependency@);
        }
        match position(tasks, dependency) {
            Some(_) => {
                plan_named(dependency, tasks, version, settings, build_dir, completed, active, steps)?;
            },
            None => {
                let parts = words(dependency);
                if parts.len() > 0 {
                    let ghost before = steps@;
                    steps.push(TaskStep::Nox(parts));
                    assert(step_texts(steps@) =~= step_texts(before).push(StepText::Nox(words_from(dependency@, 0))));
                }
            },
        }
        d = d + 1;
    }
    let ghost before_commands = step_texts(steps@);
    let ghost shells = command_steps(task.commands@, version@, settings@, build_dir@);
    let mut k: usize = 0;
    while k < task.commands.len()
        invariant
            k <= task.commands@.len(),
            text::views(active@) == outer.push(name@),
            shells == command_steps(task.commands@, version@, settings@, build_dir@),
            step_texts(steps@) == before_commands + shells.take(k as int),
        decreases task.commands@.len() - k,
    {
        let command = interpolate(task.commands[k].as_str(), version, settings, build_dir);
        let ghost prev = steps@;
        steps.push(TaskStep::Shell(command));
        assert(step_texts(steps@) =~= step_texts(prev).push(StepText::Shell(command@)));
        assert(shells.take(k + 1) =~= shells.take(k as int).push(shells[k as int]));
        k = k + 1;
    }
    assert(shells.take(k as int) =~= shells);
    let ghost pushed = active@;
    active.pop();
    assert(active@ == pushed.drop_last());
    assert(text::views(active@) =~= text::views(pushed).drop_last());
    let ghost done = completed@;
    completed.push(text::owned(name));
    assert(text::views(completed@) =~= text::views(done).push(name@));
    Ok(())
}

/// What running the task `name` does: its dependencies first (a task at
/// most once; a dependency that is no task runs as a Nox command), then
/// its own commands with placeholders filled in.
pub fn plan_task(
    name: &str,
    tasks: &Vec<(String, Task)>,
    version: &str,
    settings: &Vec<(String, Setting)>,
    build_dir: &str,
) -> (r: TaskPlan)
    ensures
        ({
            let planned = plan_spec(tasks@, name@, version@, settings@, build_dir@, Seq::empty(), Seq::empty(), Seq::empty());
            &&& step_texts(r.steps@) == planned.0
            &&& match planned.2 {
                None => r.failure is None,
                Some(m) => r.failure matches Some(Error::Config(e)) && e@ == m,
            }
        }),
{
    let mut completed: Vec<String> = Vec::new();
    let mut active: Vec<String> = Vec::new();
    let mut steps: Vec<TaskStep> = Vec::new();
    assert(text::views(completed@) =~= Seq::<Seq<char>>::empty());
    assert(step_texts(steps@) =~= Seq::<StepText>::empty());
    let result = plan_named(name, tasks, version, settings, build_dir, &mut completed, &mut active, &mut steps);
    TaskPlan {
        steps,
        failure: match result {
            Ok(()) => None,
            Err(e) => Some(e),
        },
    }
}

/// The index of the first setting named `name` from `i` on.
pub open spec fn setting_from(settings: Seq<(String, Setting)>, name: Seq<char>, i: int) -> Option<int>
    decreases settings.len() - i,
{
    if i < 0 || i >= settings.len() {
        None
    } else if settings[i].0@ == name {
        Some(i)
    } else {
        setting_from(settings, name, i + 1)
    }
}

/// The `windows-shell` setting when it is a list of a program and at least
/// one argument.
pub open spec fn windows_shell(settings: Seq<(String, Setting)>) -> Option<Seq<Seq<char>>> {
    match setting_from(settings, "windows-shell"@, 0) {
        Some(i) => match settings[i].1 {
            Setting::List(values) => if values@.len() >= 2 {
                Some(text::views(values@))
            } else {
                None
            },
            Setting::String(_) => None,
        },
        None => None,
    }
}

/// The program and arguments that run a task command: `sh -c` on Unix;
/// on Windows the `windows-shell` setting when it names a program and at
/// least one argument, `cmd /C` otherwise.
pub fn shell_invocation(command: &str, settings: &Vec<(String, Setting)>, windows: bool) -> (r: (String, Vec<String>))
    ensures
        !windows ==> r.0@ == "sh"@ && text::views(r.1@) == seq!["-c"@, command@],
        windows ==> match windows_shell(settings@) {
            Some(shell) => r.0@ == shell[0] && text::views(r.1@) == shell.skip(1).push(command@),
            None => r.0@ == "cmd"@ && text::views(r.1@) == seq!["/C"@, command@],
        },
{
    proof {
        reveal_strlit("windows-shell");
    }
    if !windows {
        let mut args: Vec<String> = Vec::new();
        args.push(text::owned("-c"));
        args.push(text::owned(command));
        assert(text::views(args@) =~= seq!["-c"@, command@]);
        return (text::owned("sh"), args);
    }
    let mut i: usize = 0;
    while i < settings.len()
        invariant
            i <= settings@.len(),
            windows,
            setting_from(settings@, "windows-shell"@, 0) == setting_from(settings@, "windows-shell"@, i as int),
        decreases settings@.len() - i,
    {
        if text::same(settings[i].0.as_str(), "windows-shell") {
            match &settings[i].1 {
                Setting::List(values) => {
                    if values.len() >= 2 {
                        let ghost shell = text::views(values@);
                        let mut args: Vec<String> = Vec::new();
                        let mut k: usize = 1;
                        while k < values.len()
                            invariant
                                1 <= k <= values@.len(),
                                shell == text::views(values@),
                                text::views(args@) == shell.subrange(1, k as int),
                            decreases values@.len() - k,
                        {
                            let ghost before = args@;
                            args.push(values[k].clone());
                            assert(text::views(args@) =~= text::views(before).push(shell[k as int]));
                            assert(shell.subrange(1, k + 1) =~= shell.subrange(1, k as int).push(shell[k as int]));
                            k = k + 1;
                        }
                        let ghost middle = args@;
                        args.push(text::owned(command));
                        assert(text::views(args@) =~= text::views(middle).push(command@));
                        assert(shell.subrange(1, k as int) =~= shell.skip(1));
                        return (values[0].clone(), args);
                    }
                },
                _ => {},
            }
            let mut args: Vec<String> = Vec::new();
            args.push(text::owned("/C"));
            args.push(text::owned(command));
            assert(text::views(args@) =~= seq!["/C"@, command@]);
            return (text::owned("cmd"), args);
        }
        i = i + 1;
    }
    let mut args: Vec<String> = Vec::new();
    args.push(text::owned("/C"));
    args.push(text::owned(command));
    assert(text::views(args@) =~= seq!["/C"@, command@]);
    (text::owned("cmd"), args)
}

/// Planning a task only adds: the tasks completed before stay completed,
/// the steps planned before stay first, and a successful plan completes the
/// task itself.
proof fn lemma_plan_grows(
    tasks: Seq<(String, Task)>,
    name: Seq<char>,
    version: Seq<char>,
    settings: Seq<(String, Setting)>,
    build_dir: Seq<char>,
    completed: Seq<Seq<char>>,
    active: Seq<Seq<char>>,
    steps: Seq<StepText>,
)
    ensures
        ({
            let p = plan_spec(tasks, name, version, settings, build_dir, completed, active, steps);
            p.2 is None ==> {
                &&& forall|x: Seq<char>| completed.contains(x) ==> #[trigger] p.1.contains(x)
                &&& p.1.contains(name)
                &&& steps.len() <= p.0.len()
                &&& p.0.take(steps.len() as int) == steps
            }
        }),
    decreases text::unvisited(task_names(tasks), active), 0int,
{
    if completed.contains(name) {
        assert(steps.take(steps.len() as int) == steps);
    } else if active.contains(name) {
    } else {
        lemma_task_index(tasks, name);
        match task_index(tasks, name) {
            None => {},
            Some(i) => {
                assert(task_names(tasks)[i] == name);
                text::lemma_unvisited_push(task_names(tasks), active, name);
                let deps = text::views(tasks[i].1.dependencies@);
                lemma_deps_grows(tasks, deps, 0, version, settings, build_dir, completed, active.push(name), steps);
                let planned = plan_deps(tasks, deps, 0, version, settings, build_dir, completed, active.push(name), steps);
                if planned.2 is None {
                    let all = planned.0 + command_steps(tasks[i].1.commands@, version, settings, build_dir);
                    assert(all.take(planned.0.len() as int) == planned.0);
                    assert(all.take(steps.len() as int) == planned.0.take(steps.len() as int));
                    assert(planned.1.push(name)[planned.1.len() as int] == name);
                    assert forall|x: Seq<char>| completed.contains(x) implies #[trigger] planned.1.push(name).contains(x) by {
                        assert(planned.1.contains(x));
                        let j = choose|j: int| 0 <= j < planned.1.len() && planned.1[j] == x;
                        assert(planned.1.push(name)[j] == x);
                    }
                }
            },
        }
    }
}

proof fn lemma_deps_grows(
    tasks: Seq<(String, Task)>,
    deps: Seq<Seq<char>>,
    d: int,
    version: Seq<char>,
    settings: Seq<(String, Setting)>,
    build_dir: Seq<char>,
    completed: Seq<Seq<char>>,
    active: Seq<Seq<char>>,
    steps: Seq<StepText>,
)
    ensures
        ({
            let p = plan_deps(tasks, deps, d, version, settings, build_dir, completed, active, steps);
            p.2 is None ==> {
                &&& forall|x: Seq<char>| completed.contains(x) ==> #[trigger] p.1.contains(x)
                &&& steps.len() <= p.0.len()
                &&& p.0.take(steps.len() as int) == steps
            }
        }),
    decreases text::unvisited(task_names(tasks), active), deps.len() - d + 1,
{
    if d < 0 || d >= deps.len() {
        assert(steps.take(steps.len() as int) == steps);
    } else if task_index(tasks, deps[d]) is Some {
        lemma_plan_grows(tasks, deps[d], version, settings, build_dir, completed, active, steps);
        let planned = plan_spec(tasks, deps[d], version, settings, build_dir, completed, active, steps);
        if planned.2 is None {
            lemma_deps_grows(tasks, deps, d + 1, version, settings, build_dir, planned.1, active, planned.0);
            let p = plan_deps(tasks, deps, d + 1, version, settings, build_dir, planned.1, active, planned.0);
            if p.2 is None {
                assert(p.0.take(steps.len() as int) == p.0.take(planned.0.len() as int).take(steps.len() as int));
            }
        }
    } else {
        let ws = words_from(deps[d], 0);
        let next = if ws.len() > 0 { steps.push(StepText::Nox(ws)) } else { steps };
        lemma_deps_grows(tasks, deps, d + 1, version, settings, build_dir, completed, active, next);
        let p = plan_deps(tasks, deps, d + 1, version, settings, build_dir, completed, active, next);
        if p.2 is None {
            assert(next.take(steps.len() as int) == steps);
            assert(p.0.take(steps.len() as int) == p.0.take(next.len() as int).take(steps.len() as int));
        }
    }
}

/// Law: a task runs at most once in a plan. Planning a task that is already
/// completed adds no step and changes nothing; a successful plan keeps the
/// steps planned before it first, keeps every task completed before it, and
/// completes the task, so planning the same task again (as a dependency that
/// two tasks share) adds no steps.
pub proof fn lemma_plan_runs_each_task_once(
    tasks: Seq<(String, Task)>,
    name: Seq<char>,
    version: Seq<char>,
    settings: Seq<(String, Setting)>,
    build_dir: Seq<char>,
    completed: Seq<Seq<char>>,
    active: Seq<Seq<char>>,
    later_active: Seq<Seq<char>>,
    steps: Seq<StepText>,
)
    ensures
        completed.contains(name) ==> plan_spec(tasks, name, version, settings, build_dir, completed, active, steps)
            == (steps, completed, None::<Seq<char>>),
        ({
            let p = plan_spec(tasks, name, version, settings, build_dir, completed, active, steps);
            p.2 is None ==> {
                &&& p.1.contains(name)
                &&& forall|x: Seq<char>| completed.contains(x) ==> #[trigger] p.1.contains(x)
                &&& p.0.take(steps.len() as int) == steps
                &&& plan_spec(tasks, name, version, settings, build_dir, p.1, later_active, p.0) == (p.0, p.1, None::<Seq<char>>)
            }
        }),
{
    lemma_plan_grows(tasks, name, version, settings, build_dir, completed, active, steps);
}

/// String settings leave a text without `{` as it is.
proof fn lemma_settings_absent(s: Seq<char>, settings: Seq<(String, Setting)>)
    requires
        !s.contains('{'),
    ensures
        with_settings(s, settings) == s,
    decreases settings.len(),
{
    if settings.len() > 0 {
        lemma_settings_absent(s, settings.drop_last());
        match settings.last().1 {
            Setting::String(v) => {
                text::lemma_replace_absent(s, placeholder(settings.last().0@), v@, '{', 0);
            },
            Setting::List(_) => {},
        }
    }
}

/// Law: a task command is run as written except for its placeholders: text
/// without `{` is left as it is, and `{{build_dir}}` or `{{version}}` is
/// replaced by the build directory or the version, the text around it kept.
pub proof fn lemma_interpolation_fills(
    a: Seq<char>,
    b: Seq<char>,
    version: Seq<char>,
    settings: Seq<(String, Setting)>,
    build_dir: Seq<char>,
)
    requires
        !a.contains('{'),
        !b.contains('{'),
        !version.contains('{'),
        !build_dir.contains('{'),
    ensures
        interpolated(a, version, settings, build_dir) == a,
        interpolated(a + "{{build_dir}}"@ + b, version, settings, build_dir) == a + build_dir + b,
        interpolated(a + "{{version}}"@ + b, version, settings, build_dir) == a + version + b,
{
    reveal_strlit("{{build_dir}}");
    reveal_strlit("{{version}}");
    let bd = "{{build_dir}}"@;
    let vp = "{{version}}"@;
    text::lemma_replace_absent(a, bd, build_dir, '{', 0);
    text::lemma_replace_absent(a, vp, version, '{', 0);
    lemma_settings_absent(a, settings);
    assert(a.skip(0) == a);
    // {{build_dir}}
    text::lemma_replace_once(a, bd, b, build_dir, '{', 0);
    let r1 = a + build_dir + b;
    assert(!r1.contains('{')) by {
        if r1.contains('{') {
            let k = choose|k: int| 0 <= k < r1.len() && r1[k] == '{';
            if k < a.len() {
                assert(a[k] == '{');
            } else if k < a.len() + build_dir.len() {
                assert(build_dir[k - a.len()] == '{');
            } else {
                assert(b[k - a.len() - build_dir.len()] == '{');
            }
        }
    }
    text::lemma_replace_absent(r1, vp, version, '{', 0);
    lemma_settings_absent(r1, settings);
    assert(r1.skip(0) == r1);
    // {{version}}
    let s2 = a + vp + b;
    text::lemma_replace_once(a, vp, b, version, '{', 0);
    let r2 = a + version + b;
    assert(text::replace(s2, bd, build_dir) == s2) by {
        assert forall|j: int| 0 <= j < s2.len() implies !#[trigger] text::occurs_at(s2, bd, j) by {
            if text::occurs_at(s2, bd, j) {
                let w = s2.subrange(j, j + bd.len());
                assert(w[0] == s2[j]);
                assert(w[1] == s2[j + 1]);
                assert(w[2] == s2[j + 2]);
                if j < a.len() {
                    assert(s2[j] == a[j]);
                } else if j == a.len() {
                    assert(s2[j + 2] == vp[2]);
                } else if j == a.len() + 1 {
                    assert(s2[j + 1] == vp[2]);
                } else if j < a.len() + vp.len() {
                    assert(s2[j] == vp[j - a.len()]);
                } else {
                    assert(s2[j] == b[j - a.len() - vp.len()]);
                }
            }
        }
        text::lemma_replace_nowhere(s2, bd, build_dir, 0);
        assert(s2.skip(0) == s2);
    }
    assert(!r2.contains('{')) by {
        if r2.contains('{') {
            let k = choose|k: int| 0 <= k < r2.len() && r2[k] == '{';
            if k < a.len() {
                assert(a[k] == '{');
            } else if k < a.len() + version.len() {
                assert(version[k - a.len()] == '{');
            } else {
                assert(b[k - a.len() - version.len()] == '{');
            }
        }
    }
    lemma_settings_absent(r2, settings);
}

/// `r` extends `ts`: the same tasks first, in order, each keeping its
/// dependencies and commands first.
pub open spec fn extends(
    r: Seq<(Seq<char>, Seq<Seq<char>>, Seq<Seq<char>>)>,
    ts: Seq<(Seq<char>, Seq<Seq<char>>, Seq<Seq<char>>)>,
) -> bool {
    &&& ts.len() <= r.len()
    &&& forall|k: int| 0 <= k < ts.len() ==> {
        &&& (#[trigger] r[k]).0 == ts[k].0
        &&& ts[k].1.len() <= r[k].1.len() && r[k].1.take(ts[k].1.len() as int) == ts[k].1
        &&& ts[k].2.len() <= r[k].2.len() && r[k].2.take(ts[k].2.len() as int) == ts[k].2
    }
}

proof fn lemma_extends_trans(
    a: Seq<(Seq<char>, Seq<Seq<char>>, Seq<Seq<char>>)>,
    b: Seq<(Seq<char>, Seq<Seq<char>>, Seq<Seq<char>>)>,
    c: Seq<(Seq<char>, Seq<Seq<char>>, Seq<Seq<char>>)>,
)
    requires
        extends(b, a),
        extends(c, b),
    ensures
        extends(c, a),
{
    assert forall|k: int| 0 <= k < a.len() implies {
        &&& (#[trigger] c[k]).0 == a[k].0
        &&& a[k].1.len() <= c[k].1.len() && c[k].1.take(a[k].1.len() as int) == a[k].1
        &&& a[k].2.len() <= c[k].2.len() && c[k].2.take(a[k].2.len() as int) == a[k].2
    } by {
        assert(b[k].0 == a[k].0);
        assert(c[k].1.take(a[k].1.len() as int) == c[k].1.take(b[k].1.len() as int).take(a[k].1.len() as int));
        assert(c[k].2.take(a[k].2.len() as int) == c[k].2.take(b[k].2.len() as int).take(a[k].2.len() as int));
    }
}

proof fn lemma_extends_refl(a: Seq<(Seq<char>, Seq<Seq<char>>, Seq<Seq<char>>)>)
    ensures
        extends(a, a),
{
    assert forall|k: int| 0 <= k < a.len() implies {
        &&& (#[trigger] a[k]).0 == a[k].0
        &&& a[k].1.take(a[k].1.len() as int) == a[k].1
        &&& a[k].2.take(a[k].2.len() as int) == a[k].2
    } by {
        assert(a[k].1.take(a[k].1.len() as int) =~= a[k].1);
        assert(a[k].2.take(a[k].2.len() as int) =~= a[k].2);
    }
}

proof fn lemma_scan_extends(
    lines: Seq<Seq<char>>,
    i: int,
    ts: Seq<(Seq<char>, Seq<Seq<char>>, Seq<Seq<char>>)>,
    in_tasks: bool,
    tasks_indent: nat,
    current: Option<int>,
    task_indent: nat,
)
    requires
        current matches Some(c) ==> 0 <= c < ts.len(),
    ensures
        task_scan(lines, i, ts, in_tasks, tasks_indent, current, task_indent) matches Some(r) ==> extends(r, ts),
    decreases lines.len() - i,
{
    lemma_extends_refl(ts);
    if 0 <= i < lines.len() {
        let t = text::trim(lines[i]);
        let indent = byte_indent(lines[i]);
        if t.len() == 0 || t[0] == '#' {
            lemma_scan_extends(lines, i + 1, ts, in_tasks, tasks_indent, current, task_indent);
        } else if t == "tasks:"@ {
            lemma_scan_extends(lines, i + 1, ts, true, indent, current, task_indent);
        } else if !in_tasks {
            lemma_scan_extends(lines, i + 1, ts, in_tasks, tasks_indent, current, task_indent);
        } else if indent <= tasks_indent {
        } else if t.last() == ':' && !text::has_prefix(t, "run:"@) {
            let name = without_colons(t);
            let n = with_task(ts, name);
            assert(extends(n, ts)) by {
                assert forall|k: int| 0 <= k < ts.len() implies n[k] == ts[k] by {}
                assert forall|k: int| 0 <= k < ts.len() implies {
                    &&& ts[k].1.take(ts[k].1.len() as int) == ts[k].1
                    &&& ts[k].2.take(ts[k].2.len() as int) == ts[k].2
                } by {
                    assert(ts[k].1.take(ts[k].1.len() as int) =~= ts[k].1);
                    assert(ts[k].2.take(ts[k].2.len() as int) =~= ts[k].2);
                }
            }
            lemma_text_index_bound(ts, name);
            lemma_scan_extends(lines, i + 1, n, in_tasks, tasks_indent, Some(task_at(ts, name)), indent);
            if task_scan(lines, i + 1, n, in_tasks, tasks_indent, Some(task_at(ts, name)), indent) is Some {
                lemma_extends_trans(ts, n, task_scan(lines, i + 1, n, in_tasks, tasks_indent, Some(task_at(ts, name)), indent)->0);
            }
        } else if current is None {
        } else if indent <= task_indent {
            lemma_scan_extends(lines, i + 1, ts, in_tasks, tasks_indent, current, task_indent);
        } else if text::has_prefix(t, "@nox"@) {
            let d = text::trim(t.skip(4));
            let n = if d.len() > 0 { with_dependency(ts, current->0, d) } else { ts };
            assert(extends(n, ts)) by {
                assert forall|k: int| 0 <= k < ts.len() implies {
                    &&& (#[trigger] n[k]).0 == ts[k].0
                    &&& ts[k].1.len() <= n[k].1.len() && n[k].1.take(ts[k].1.len() as int) == ts[k].1
                    &&& ts[k].2.len() <= n[k].2.len() && n[k].2.take(ts[k].2.len() as int) == ts[k].2
                } by {
                    assert(ts[k].1.push(d).take(ts[k].1.len() as int) =~= ts[k].1);
                    assert(ts[k].1.take(ts[k].1.len() as int) =~= ts[k].1);
                    assert(ts[k].2.take(ts[k].2.len() as int) =~= ts[k].2);
                }
            }
            lemma_scan_extends(lines, i + 1, n, in_tasks, tasks_indent, current, task_indent);
            if task_scan(lines, i + 1, n, in_tasks, tasks_indent, current, task_indent) is Some {
                lemma_extends_trans(ts, n, task_scan(lines, i + 1, n, in_tasks, tasks_indent, current, task_indent)->0);
            }
        } else if text::has_prefix(t, "run:"@) {
            let v = text::trim(t.skip(4));
            let first = if v == "|"@ || v == ">"@ { Seq::empty() } else { unquoted(v) };
            lemma_block_end(lines, i + 1, indent);
            let end = block_end(lines, i + 1, indent);
            let c = block_text(lines, i + 1, end, first);
            let n = if c.len() > 0 { with_command(ts, current->0, c) } else { ts };
            assert(extends(n, ts)) by {
                assert forall|k: int| 0 <= k < ts.len() implies {
                    &&& (#[trigger] n[k]).0 == ts[k].0
                    &&& ts[k].1.len() <= n[k].1.len() && n[k].1.take(ts[k].1.len() as int) == ts[k].1
                    &&& ts[k].2.len() <= n[k].2.len() && n[k].2.take(ts[k].2.len() as int) == ts[k].2
                } by {
                    assert(ts[k].2.push(c).take(ts[k].2.len() as int) =~= ts[k].2);
                    assert(ts[k].1.take(ts[k].1.len() as int) =~= ts[k].1);
                    assert(ts[k].2.take(ts[k].2.len() as int) =~= ts[k].2);
                }
            }
            lemma_scan_extends(lines, end, n, in_tasks, tasks_indent, current, task_indent);
            if task_scan(lines, end, n, in_tasks, tasks_indent, current, task_indent) is Some {
                lemma_extends_trans(ts, n, task_scan(lines, end, n, in_tasks, tasks_indent, current, task_indent)->0);
            }
        } else {
            lemma_scan_extends(lines, i + 1, ts, in_tasks, tasks_indent, current, task_indent);
        }
    }
}

proof fn lemma_text_index_bound(ts: Seq<(Seq<char>, Seq<Seq<char>>, Seq<Seq<char>>)>, name: Seq<char>)
    ensures
        text_index(ts, name) matches Some(k) ==> 0 <= k < ts.len() && ts[k].0 == name,
        0 <= task_at(ts, name) < with_task(ts, name).len(),
        with_task(ts, name)[task_at(ts, name)].0 == name,
    decreases ts.len(),
{
    if ts.len() > 0 {
        lemma_text_index_bound(ts.drop_last(), name);
    }
}

/// Law: reading a noxfile only adds. Each line keeps every task read
/// before it in its place, with the dependencies and commands read before
/// it first and in their order.
pub proof fn lemma_noxfile_reading_only_adds(
    lines: Seq<Seq<char>>,
    i: int,
    ts: Seq<(Seq<char>, Seq<Seq<char>>, Seq<Seq<char>>)>,
    in_tasks: bool,
    tasks_indent: nat,
    current: Option<int>,
    task_indent: nat,
)
    requires
        current matches Some(c) ==> 0 <= c < ts.len(),
    ensures
        task_scan(lines, i, ts, in_tasks, tasks_indent, current, task_indent) matches Some(r) ==> extends(r, ts),
{
    lemma_scan_extends(lines, i, ts, in_tasks, tasks_indent, current, task_indent);
}

} // verus!
