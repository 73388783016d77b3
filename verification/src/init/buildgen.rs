//! The `nox.build` that `nox init` generates.
use vstd::prelude::*;
use crate::paths;
use crate::text;
use crate::cli::project::{relative_to, relative_path};
use crate::rules::init::{InitRules, FlagRule, PropertyRule, TargetRule, contains_language};
use crate::init::language::{Language, ProjectType};
use crate::init::layout::{include_dir, include_directories};
use crate::init::project::ProjectInfo;
use crate::init::scanner::{keep, project_source, source_files};
use crate::init::templates::{starter, starter_file};

verus! {

/// A path written with `/` separators only.
pub open spec fn slashes(p: Seq<char>) -> Seq<char> {
    text::replace(p, "\\"@, "/"@)
}

/// One quoted, indented item of a list.
pub open spec fn item_line(p: Seq<char>) -> Seq<char> {
    "        \""@ + p + "\""@
}

/// A `key = [ ... ]` property with one item per line.
pub open spec fn list_block(key: Seq<char>, items: Seq<Seq<char>>) -> Seq<char> {
    "        "@ + key + " = [\n"@ + text::join(items.map_values(|p: Seq<char>| item_line(p)), ",\n"@) + "\n        ]"@
}

/// A list property after a line break, or nothing for no items.
pub open spec fn optional_block(key: Seq<char>, items: Seq<Seq<char>>) -> Seq<char> {
    if items.len() == 0 {
        Seq::empty()
    } else {
        "\n"@ + list_block(key, items)
    }
}

/// The flags that the rules give a language, rule by rule.
pub open spec fn rule_flags(rules: Seq<FlagRule>, l: Language) -> Seq<Seq<char>>
    decreases rules.len(),
{
    if rules.len() == 0 {
        Seq::empty()
    } else if rules.last().languages@.contains(l) {
        rule_flags(rules.drop_last(), l) + text::views(rules.last().values@)
    } else {
        rule_flags(rules.drop_last(), l)
    }
}

/// The target keyword for a language and project type: that of the first
/// matching rule, else `executable`.
pub open spec fn target_keyword(rules: Seq<TargetRule>, l: Language, t: ProjectType) -> Seq<char> {
    if exists|i: int| 0 <= i < rules.len() && (#[trigger] rules[i]).language == l && rules[i].project_type == t {
        rules[choose|i: int| 0 <= i < rules.len() && (#[trigger] rules[i]).language == l && rules[i].project_type == t
            && forall|j: int| 0 <= j < i ==> !((#[trigger] rules[j]).language == l && rules[j].project_type == t)].target@
    } else {
        "executable"@
    }
}

/// The properties of the generated target, in the order of the rules.
pub open spec fn properties(ps: Seq<PropertyRule>, sources: Seq<char>, includes: Seq<char>, flags: Seq<char>) -> Seq<Seq<char>>
    decreases ps.len(),
{
    if ps.len() == 0 {
        Seq::empty()
    } else {
        let rest = properties(ps.drop_last(), sources, includes, flags);
        let p = ps.last();
        if p.name@ == "sources"@ {
            rest.push(sources)
        } else if p.name@ == "include_dirs"@ && includes.len() > 0 {
            rest.push(includes)
        } else if p.name@ == "flags"@ && flags.len() > 0 {
            rest.push(flags)
        } else if p.name@ == "install"@ && p.automatic {
            rest.push("        install = true"@)
        } else {
            rest
        }
    }
}

/// The sources of the generated target: the project's sources of the
/// language, or the starter file when it has none.
pub open spec fn target_sources(project: ProjectInfo, rules: InitRules, l: Language, t: ProjectType) -> Seq<Seq<char>> {
    let found = keep(text::views(project.source_files@), |p: Seq<char>| project_source(p, l, rules));
    if found.len() == 0 {
        seq![starter_file(l, t).0]
    } else {
        found
    }
}

/// The text of the generated `nox.build`, given the include directories.
pub open spec fn build_text(
    project: ProjectInfo,
    rules: InitRules,
    l: Language,
    t: ProjectType,
    name: Seq<char>,
    include_dirs: Seq<Seq<char>>,
) -> Seq<char> {
    let sources = list_block("sources"@, target_sources(project, rules, l, t).map_values(|p: Seq<char>| slashes(p)));
    let includes = optional_block(
        "include_dirs"@,
        include_dirs.map_values(|d: Seq<char>| slashes(relative_to(d, project.root@))),
    );
    let flags = optional_block("flags"@, rule_flags(rules.flags@, l));
    "project \""@ + name + "\" {\n    description = \"A project built and automated with Nox.\"\n\n    "@
        + target_keyword(rules.targets@, l, t) + " \""@ + name + "\" {\n"@
        + text::join(properties(rules.properties@, sources, includes, flags), "\n"@) + "\n    }\n}\n"@
}

/// The include directories of a project as `include_directories` gives
/// them: sorted, each once, one per header's include directory.
pub open spec fn include_list(dirs: Seq<Seq<char>>, project: ProjectInfo, rules: InitRules) -> bool {
    &&& paths::sorted_keys(dirs)
    &&& forall|i: int| 0 <= i < dirs.len() - 1 ==> #[trigger] dirs[i] != dirs[i + 1]
    &&& forall|x: Seq<char>| #[trigger] dirs.contains(x) <==> exists|h: int|
        0 <= h < project.header_files@.len() && x == paths::join(project.root@, include_dir(project.header_files@[h]@, rules.layouts@))
}

fn slashed(p: &str) -> (r: String)
    ensures
        r@ == slashes(p@),
{
    proof {
        reveal_strlit("\\");
    }
    text::replace_str(p, "\\", "/")
}

/// The lines of a list's items.
fn list_block_of(key: &str, items: &Vec<String>) -> (r: String)
    ensures
        r@ == list_block(key@, text::views(items@)),
{
    let mut lines: Vec<String> = Vec::new();
    let mut i: usize = 0;
    while i < items.len()
        invariant
            i <= items@.len(),
            text::views(lines@) == text::views(items@).take(i as int).map_values(|p: Seq<char>| item_line(p)),
        decreases items@.len() - i,
    {
        let mut line = text::owned("        \"");
        text::push_str(&mut line, items[i].as_str());
        text::push_str(&mut line, "\"");
        let ghost before = lines@;
        lines.push(line);
        assert(text::views(lines@) =~= text::views(before).push(line@));
        assert(text::views(items@).take(i + 1).map_values(|p: Seq<char>| item_line(p)) =~= text::views(items@).take(i as int).map_values(|p: Seq<char>| item_line(p)).push(item_line(items@[i as int]@)));
        i = i + 1;
    }
    assert(text::views(items@).take(i as int) == text::views(items@));
    let body = text::join_strings(&lines, ",\n");
    let mut r = text::owned("        ");
    text::push_str(&mut r, key);
    text::push_str(&mut r, " = [\n");
    text::push_str(&mut r, body.as_str());
    text::push_str(&mut r, "\n        ]");
    r
}

fn optional_block_of(key: &str, items: &Vec<String>) -> (r: String)
    ensures
        r@ == optional_block(key@, text::views(items@)),
{
    if items.len() == 0 {
        String::new()
    } else {
        let block = list_block_of(key, items);
        text::concat("\n", block.as_str())
    }
}

fn flags_for(rules: &InitRules, l: Language) -> (r: Vec<String>)
    ensures
        text::views(r@) == rule_flags(rules.flags@, l),
{
    let mut r: Vec<String> = Vec::new();
    let mut i: usize = 0;
    while i < rules.flags.len()
        invariant
            i <= rules.flags@.len(),
            text::views(r@) == rule_flags(rules.flags@.take(i as int), l),
        decreases rules.flags@.len() - i,
    {
        let rule = &rules.flags[i];
        assert(rules.flags@.take(i + 1).drop_last() == rules.flags@.take(i as int));
        if contains_language(&rule.languages, l) {
            let mut k: usize = 0;
            let ghost before = text::views(r@);
            while k < rule.values.len()
                invariant
                    k <= rule.values@.len(),
                    text::views(r@) == before + text::views(rule.values@).take(k as int),
                decreases rule.values@.len() - k,
            {
                let ghost mid = r@;
                r.push(text::owned(rule.values[k].as_str()));
                assert(text::views(r@) =~= text::views(mid).push(rule.values@[k as int]@));
                assert(text::views(rule.values@).take(k + 1) =~= text::views(rule.values@).take(k as int).push(rule.values@[k as int]@));
                k = k + 1;
            }
            assert(text::views(rule.values@).take(k as int) == text::views(rule.values@));
        }
        i = i + 1;
    }
    assert(rules.flags@.take(i as int) == rules.flags@);
    r
}

fn properties_of(ps: &Vec<PropertyRule>, sources: &str, includes: &str, flags: &str) -> (r: Vec<String>)
    ensures
        text::views(r@) == properties(ps@, sources@, includes@, flags@),
{
    let mut r: Vec<String> = Vec::new();
    let mut i: usize = 0;
    let has_includes = text::chars_of(includes).len() > 0;
    let has_flags = text::chars_of(flags).len() > 0;
    while i < ps.len()
        invariant
            i <= ps@.len(),
            has_includes == (includes@.len() > 0),
            has_flags == (flags@.len() > 0),
            text::views(r@) == properties(ps@.take(i as int), sources@, includes@, flags@),
        decreases ps@.len() - i,
    {
        let p = &ps[i];
        assert(ps@.take(i + 1).drop_last() == ps@.take(i as int));
        assert(ps@.take(i + 1).last() == ps@[i as int]);
        let ghost before = r@;
        let name = p.name.as_str();
        if text::same(name, "sources") {
            r.push(text::owned(sources));
        } else if text::same(name, "include_dirs") && has_includes {
            r.push(text::owned(includes));
        } else if text::same(name, "flags") && has_flags {
            r.push(text::owned(flags));
        } else if text::same(name, "install") && p.automatic {
            r.push(text::owned("        install = true"));
        }
        assert(text::views(r@) =~= properties(ps@.take(i + 1), sources@, includes@, flags@)) by {
            if r@.len() > before.len() {
                assert(text::views(r@) =~= text::views(before).push(r@.last()@));
            }
        }
        i = i + 1;
    }
    assert(ps@.take(i as int) == ps@);
    r
}

fn target_keyword_of(rules: &InitRules, l: Language, t: ProjectType) -> (r: String)
    ensures
        r@ == target_keyword(rules.targets@, l, t),
{
    let mut i: usize = 0;
    while i < rules.targets.len()
        invariant
            i <= rules.targets@.len(),
            forall|j: int| 0 <= j < i ==> !((#[trigger] rules.targets@[j]).language == l && rules.targets@[j].project_type == t),
        decreases rules.targets@.len() - i,
    {
        if rules.targets[i].language == l && rules.targets[i].project_type == t {
            proof {
                let k = i as int;
                let c = choose|c: int| 0 <= c < rules.targets@.len() && (#[trigger] rules.targets@[c]).language == l
                    && rules.targets@[c].project_type == t
                    && forall|j: int| 0 <= j < c ==> !((#[trigger] rules.targets@[j]).language == l
                        && rules.targets@[j].project_type == t);
                assert(rules.targets@[k].language == l && rules.targets@[k].project_type == t);
                if c < k {
                    assert(!(rules.targets@[c].language == l && rules.targets@[c].project_type == t));
                }
                if k < c {
                    assert(!(rules.targets@[k].language == l && rules.targets@[k].project_type == t));
                }
            }
            return text::owned(rules.targets[i].target.as_str());
        }
        i = i + 1;
    }
    text::owned("executable")
}

/// The generated `nox.build`: a project named `name` with one target of
/// the language's keyword holding the sources, the include directories of
/// the headers and the language's flags, in the order of the rules.
pub fn render(project: &ProjectInfo, rules: &InitRules, language: Language, project_type: ProjectType, name: &str) -> (r: String)
    ensures
        exists|dirs: Seq<Seq<char>>| include_list(dirs, *project, *rules)
            && r@ == build_text(*project, *rules, language, project_type, name@, dirs),
{
    let found = source_files(project, language, rules);
    let mut source_paths: Vec<String> = Vec::new();
    if found.len() == 0 {
        let (path, _) = starter(language, project_type);
        source_paths.push(text::owned(path));
        assert(text::views(source_paths@) =~= seq![starter_file(language, project_type).0]);
    } else {
        source_paths = found;
    }
    let ghost srcs = target_sources(*project, *rules, language, project_type);
    assert(text::views(source_paths@) == srcs);
    let mut slashed_sources: Vec<String> = Vec::new();
    let mut i: usize = 0;
    while i < source_paths.len()
        invariant
            i <= source_paths@.len(),
            text::views(slashed_sources@) == text::views(source_paths@).take(i as int).map_values(|p: Seq<char>| slashes(p)),
        decreases source_paths@.len() - i,
    {
        let s = slashed(source_paths[i].as_str());
        let ghost before = slashed_sources@;
        slashed_sources.push(s);
        assert(text::views(slashed_sources@) =~= text::views(before).push(s@));
        assert(text::views(source_paths@).take(i + 1).map_values(|p: Seq<char>| slashes(p)) =~= text::views(source_paths@).take(i as int).map_values(|p: Seq<char>| slashes(p)).push(slashes(source_paths@[i as int]@)));
        i = i + 1;
    }
    assert(text::views(source_paths@).take(i as int) == text::views(source_paths@));
    let sources_block = list_block_of("sources", &slashed_sources);
    let dirs = include_directories(project.root.as_str(), project, rules);
    let mut includes: Vec<String> = Vec::new();
    let mut i: usize = 0;
    while i < dirs.len()
        invariant
            i <= dirs@.len(),
            text::views(includes@) == text::views(dirs@).take(i as int).map_values(|d: Seq<char>| slashes(relative_to(d, project.root@))),
        decreases dirs@.len() - i,
    {
        let rel = relative_path(dirs[i].as_str(), project.root.as_str());
        let s = slashed(rel.as_str());
        let ghost before = includes@;
        includes.push(s);
        assert(text::views(includes@) =~= text::views(before).push(s@));
        assert(text::views(dirs@).take(i + 1).map_values(|d: Seq<char>| slashes(relative_to(d, project.root@))) =~= text::views(dirs@).take(i as int).map_values(|d: Seq<char>| slashes(relative_to(d, project.root@))).push(slashes(relative_to(dirs@[i as int]@, project.root@))));
        i = i + 1;
    }
    assert(text::views(dirs@).take(i as int) == text::views(dirs@));
    let include_block = optional_block_of("include_dirs", &includes);
    let flags = flags_for(rules, language);
    let flags_block = optional_block_of("flags", &flags);
    let target = target_keyword_of(rules, language, project_type);
    let props = properties_of(&rules.properties, sources_block.as_str(), include_block.as_str(), flags_block.as_str());
    let body = text::join_strings(&props, "\n");
    let mut r = text::owned("project \"");
    text::push_str(&mut r, name);
    text::push_str(&mut r, "\" {\n    description = \"A project built and automated with Nox.\"\n\n    ");
    text::push_str(&mut r, target.as_str());
    text::push_str(&mut r, " \"");
    text::push_str(&mut r, name);
    text::push_str(&mut r, "\" {\n");
    text::push_str(&mut r, body.as_str());
    text::push_str(&mut r, "\n    }\n}\n");
    proof {
        paths::lemma_sorted_views(dirs@);
        assert forall|i: int| 0 <= i < text::views(dirs@).len() - 1 implies #[trigger] text::views(dirs@)[i] != text::views(dirs@)[i + 1] by {
            assert(text::views(dirs@)[i] == dirs@[i]@);
            assert(text::views(dirs@)[i + 1] == dirs@[i + 1]@);
        }
        assert(include_list(text::views(dirs@), *project, *rules));
    }
    r
}

} // verus!
