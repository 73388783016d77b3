//! The scan of a directory for `nox init`: what each file and directory
//! tells about the project.
use vstd::prelude::*;
use crate::paths;
use crate::text;
use crate::rules::init::{InitRules, FileRule, IgnoreRule, LanguageRule};
use crate::init::language::{
    Language, first_language_where, rule_has_extension, rule_has_header, rule_test_directory,
    some_component, lists, lemma_first_rule_language, in_rule_test_directory,
};
use crate::init::project::{ProjectInfo, ordered_languages, insert_language, remove_language};

verus! {

/// One file or directory below the scanned root, as the walk met it:
/// directories are listed before what they hold, and the entries of each
/// directory in the order of their names. `contents` holds the text of a
/// file that the rules read the project name from, when it could be read.
#[derive(Clone, Debug)]
pub struct ScanEntry {
    pub path: String,
    pub directory: bool,
    pub contents: Option<String>,
}

/// Whether the rules skip directories with this name.
pub open spec fn ignored_name(ignores: Seq<IgnoreRule>, c: Seq<char>) -> bool {
    c.len() > 0 && exists|i: int|
        0 <= i < ignores.len() && (#[trigger] ignores[i]).kind@ == "directory"@ && ignores[i].path@ == c
}

/// The directories an entry lies in, itself included for a directory.
pub open spec fn dir_part(e: ScanEntry) -> Seq<char> {
    if e.directory {
        e.path@
    } else {
        paths::parent(e.path@)
    }
}

/// Whether the scan reaches an entry: no directory on its way is skipped.
pub open spec fn visible(e: ScanEntry, rules: InitRules) -> bool {
    !some_component(dir_part(e), |c: Seq<char>| ignored_name(rules.ignores@, c))
}

/// The file name of an entry, or nothing.
pub open spec fn entry_name(e: ScanEntry) -> Seq<char> {
    match paths::file_name(e.path@) {
        Some(n) => n,
        None => Seq::empty(),
    }
}

/// The first file rule with this name.
pub open spec fn file_rule(rules: Seq<FileRule>, name: Seq<char>) -> Option<int> {
    if exists|i: int| 0 <= i < rules.len() && (#[trigger] rules[i]).name@ == name {
        Some(choose|i: int| 0 <= i < rules.len() && (#[trigger] rules[i]).name@ == name
            && forall|j: int| 0 <= j < i ==> (#[trigger] rules[j]).name@ != name)
    } else {
        None
    }
}

pub open spec fn visible_file(e: ScanEntry, rules: InitRules) -> bool {
    visible(e, rules) && !e.directory
}

/// The file rule that applies to a reached file.
pub open spec fn entry_rule(e: ScanEntry, rules: InitRules) -> Option<int> {
    if visible_file(e, rules) {
        file_rule(rules.files@, entry_name(e))
    } else {
        None
    }
}

/// The language of a source file, by the rules' extensions.
pub open spec fn source_language(path: Seq<char>, rules: InitRules) -> Option<Language> {
    first_language_where(rules.languages@, |rule: LanguageRule| rule_has_extension(rule, path))
}

pub open spec fn is_source(e: ScanEntry, rules: InitRules) -> bool {
    visible_file(e, rules) && source_language(e.path@, rules) is Some
}

pub open spec fn is_header(e: ScanEntry, rules: InitRules) -> bool {
    visible_file(e, rules) && exists|i: int|
        0 <= i < rules.languages@.len() && rule_has_header(#[trigger] rules.languages@[i], e.path@)
}

/// A package manifest: a file of a build system that implies languages.
pub open spec fn is_manifest(e: ScanEntry, rules: InitRules) -> bool {
    entry_rule(e, rules) matches Some(k) && rules.files@[k].languages@.len() > 0
        && rules.files@[k].build_system is Some
}

/// A formatter configuration: a known file of no build system.
pub open spec fn is_formatter_config(e: ScanEntry, rules: InitRules) -> bool {
    entry_rule(e, rules) matches Some(k) && rules.files@[k].build_system is None
}

pub open spec fn is_test_directory(e: ScanEntry, rules: InitRules) -> bool {
    &&& visible(e, rules)
    &&& e.directory
    &&& paths::file_name(e.path@) matches Some(n) && rule_test_directory(rules.conventions@, n)
}

/// A directory that a layout rule names as holding sources.
pub open spec fn is_layout_source(e: ScanEntry, rules: InitRules) -> bool {
    visible(e, rules) && e.directory && exists|i: int|
        0 <= i < rules.layouts@.len() && (#[trigger] rules.layouts@[i]).role@ == "source"@
            && rules.layouts@[i].directory@ == entry_name(e)
}

/// The paths of the entries satisfying `p`, in order.
pub open spec fn select(es: Seq<ScanEntry>, p: spec_fn(ScanEntry) -> bool) -> Seq<Seq<char>>
    decreases es.len(),
{
    if es.len() == 0 {
        Seq::empty()
    } else if p(es.last()) {
        select(es.drop_last(), p).push(es.last().path@)
    } else {
        select(es.drop_last(), p)
    }
}

/// A list with `x` added unless it holds it.
pub open spec fn add_new(s: Seq<Seq<char>>, x: Seq<char>) -> Seq<Seq<char>> {
    if s.contains(x) {
        s
    } else {
        s.push(x)
    }
}

/// The test directories, each once, in the order met.
pub open spec fn test_directories(es: Seq<ScanEntry>, rules: InitRules) -> Seq<Seq<char>>
    decreases es.len(),
{
    if es.len() == 0 {
        Seq::empty()
    } else if is_test_directory(es.last(), rules) {
        add_new(test_directories(es.drop_last(), rules), es.last().path@)
    } else {
        test_directories(es.drop_last(), rules)
    }
}

/// The source directories, each once, in the order met: layout source
/// directories and the directories of source files.
pub open spec fn source_directories(es: Seq<ScanEntry>, rules: InitRules) -> Seq<Seq<char>>
    decreases es.len(),
{
    if es.len() == 0 {
        Seq::empty()
    } else if is_layout_source(es.last(), rules) {
        add_new(source_directories(es.drop_last(), rules), es.last().path@)
    } else if is_source(es.last(), rules) {
        add_new(source_directories(es.drop_last(), rules), paths::parent(es.last().path@))
    } else {
        source_directories(es.drop_last(), rules)
    }
}

/// The build systems of the known files, in the order met.
pub open spec fn build_systems(es: Seq<ScanEntry>, rules: InitRules) -> Seq<Seq<char>>
    decreases es.len(),
{
    if es.len() == 0 {
        Seq::empty()
    } else if entry_rule(es.last(), rules) is Some && rules.files@[entry_rule(es.last(), rules)->0].build_system is Some {
        build_systems(es.drop_last(), rules).push(rules.files@[entry_rule(es.last(), rules)->0].build_system->0@)
    } else {
        build_systems(es.drop_last(), rules)
    }
}

/// Whether an entry tells that the project uses `l`.
pub open spec fn tells_language(e: ScanEntry, rules: InitRules, l: Language) -> bool {
    ||| (entry_rule(e, rules) matches Some(k) && rules.files@[k].languages@.contains(l))
    ||| (visible_file(e, rules) && source_language(e.path@, rules) == Some(l))
}

pub open spec fn found_language(es: Seq<ScanEntry>, rules: InitRules, l: Language) -> bool
    decreases es.len(),
{
    es.len() > 0 && (found_language(es.drop_last(), rules, l) || tells_language(es.last(), rules, l))
}

/// Whether a known file belongs to Nix.
pub open spec fn found_nix(es: Seq<ScanEntry>, rules: InitRules) -> bool
    decreases es.len(),
{
    es.len() > 0 && (found_nix(es.drop_last(), rules) || (entry_rule(es.last(), rules) matches Some(k)
        && rules.files@[k].build_system matches Some(b) && b@ == "Nix"@))
}

/// The value of a `key = "value"` line.
pub open spec fn toml_line_value(line: Seq<char>, key: Seq<char>) -> Option<Seq<char>> {
    let prefix = key + " = \""@;
    if text::has_prefix(line, prefix) {
        let rest = line.skip(prefix.len() as int);
        if rest.len() > 0 && rest.last() == '"' {
            Some(rest.drop_last())
        } else {
            None
        }
    } else {
        None
    }
}

/// The index after the characters `c` that start `s` at `i`.
pub open spec fn lead(s: Seq<char>, c: char, i: int) -> int
    decreases s.len() - i,
{
    if 0 <= i < s.len() && s[i] == c {
        lead(s, c, i + 1)
    } else {
        i
    }
}

/// The index of the characters `c` that end `s` before `j`, down to `a`.
pub open spec fn trail(s: Seq<char>, c: char, j: int, a: int) -> int
    decreases j,
{
    if a < j && 0 < j <= s.len() && s[j - 1] == c {
        trail(s, c, j - 1, a)
    } else {
        j
    }
}

/// `str::trim_matches(c)`: `s` without the characters `c` at both ends.
pub open spec fn trim_matches(s: Seq<char>, c: char) -> Seq<char> {
    let a = lead(s, c, 0);
    s.subrange(a, trail(s, c, s.len() as int, a))
}

/// The value of a `"name": "value",` line of JSON.
pub open spec fn json_line_name(line: Seq<char>) -> Option<Seq<char>> {
    let t = text::trim(line);
    let prefix = "\"name\""@;
    if text::has_prefix(t, prefix) {
        match text::split_once(t.skip(prefix.len() as int), ':') {
            Some((_, value)) => Some(trim_matches(trim_matches(text::trim(value), ','), '"')),
            None => None,
        }
    } else {
        None
    }
}

/// The first line, from `i`, that gives a name.
pub open spec fn first_name(ls: Seq<Seq<char>>, json: bool, i: int) -> Option<Seq<char>>
    decreases ls.len() - i,
{
    if i < 0 || i >= ls.len() {
        None
    } else {
        let v = if json { json_line_name(ls[i]) } else { toml_line_value(ls[i], "name"@) };
        if v is Some {
            v
        } else {
            first_name(ls, json, i + 1)
        }
    }
}

/// The project name that an entry's contents give.
pub open spec fn entry_project_name(e: ScanEntry, rules: InitRules) -> Option<Seq<char>> {
    match entry_rule(e, rules) {
        Some(k) => match e.contents {
            Some(t) => if rules.files@[k].project_name matches Some(p) && p@ == "toml_name"@ {
                first_name(text::lines(t@), false, 0)
            } else if rules.files@[k].project_name matches Some(p) && p@ == "json_name"@ {
                first_name(text::lines(t@), true, 0)
            } else {
                None
            },
            None => None,
        },
        None => None,
    }
}

/// The first project name that the entries give.
pub open spec fn project_name(es: Seq<ScanEntry>, rules: InitRules) -> Option<Seq<char>>
    decreases es.len(),
{
    if es.len() == 0 {
        None
    } else if project_name(es.drop_last(), rules) is Some {
        project_name(es.drop_last(), rules)
    } else {
        entry_project_name(es.last(), rules)
    }
}

/// Whether some entry has this path (a file, when `file` holds).
pub open spec fn has_entry(es: Seq<ScanEntry>, path: Seq<char>, file: bool) -> bool {
    exists|i: int| 0 <= i < es.len() && (#[trigger] es[i]).path@ == path && (!file || !es[i].directory)
}

/// The languages of the project: those found, with JavaScript read as
/// TypeScript when a `tsconfig.json` exists.
pub open spec fn project_language(es: Seq<ScanEntry>, rules: InitRules, l: Language) -> bool {
    let typescript = found_language(es, rules, Language::JavaScript)
        && select(es, |e: ScanEntry| visible_file(e, rules)).contains("tsconfig.json"@);
    if typescript {
        (found_language(es, rules, l) && l != Language::JavaScript) || l == Language::TypeScript
    } else {
        found_language(es, rules, l)
    }
}

/// The file at `path` satisfies `p`.
fn contents_name(contents: &str, json: bool) -> (r: Option<String>)
    ensures
        match first_name(text::lines(contents@), json, 0) {
            Some(n) => r matches Some(t) && t@ == n,
            None => r is None,
        },
{
    let cs = text::chars_of(contents);
    let ls = text::split_lines(cs.as_slice());
    let ghost lines = ls@.map_values(|l: Vec<char>| l@);
    let mut i: usize = 0;
    while i < ls.len()
        invariant
            i <= ls@.len(),
            lines == ls@.map_values(|l: Vec<char>| l@),
            lines == text::lines(contents@),
            first_name(lines, json, 0) == first_name(lines, json, i as int),
        decreases ls@.len() - i,
    {
        assert(lines[i as int] == ls@[i as int]@);
        let v = if json {
            json_name(ls[i].as_slice())
        } else {
            toml_name(ls[i].as_slice())
        };
        if v.is_some() {
            return v;
        }
        i = i + 1;
    }
    None
}

fn toml_name(line: &[char]) -> (r: Option<String>)
    ensures
        match toml_line_value(line@, "name"@) {
            Some(n) => r matches Some(t) && t@ == n,
            None => r is None,
        },
{
    let prefix = text::chars_of("name = \"");
    proof {
        reveal_strlit("name = \"");
        reveal_strlit("name");
        reveal_strlit(" = \"");
        assert("name"@ + " = \""@ =~= "name = \""@);
    }
    if !text::starts_with(line, prefix.as_slice()) {
        return None;
    }
    let rest = text::slice_chars(line, prefix.len(), line.len());
    if rest.len() > 0 && rest[rest.len() - 1] == '"' {
        let value = text::slice_chars(rest.as_slice(), 0, rest.len() - 1);
        assert(value@ == rest@.drop_last());
        Some(text::string_of(value.as_slice()))
    } else {
        None
    }
}

fn trim_matches_chars(s: &[char], c: char) -> (r: Vec<char>)
    ensures
        r@ == trim_matches(s@, c),
{
    let mut a: usize = 0;
    while a < s.len() && s[a] == c
        invariant
            a <= s@.len(),
            lead(s@, c, 0) == lead(s@, c, a as int),
        decreases s@.len() - a,
    {
        a = a + 1;
    }
    let mut b: usize = s.len();
    while a < b && s[b - 1] == c
        invariant
            a <= b <= s@.len(),
            trail(s@, c, s@.len() as int, a as int) == trail(s@, c, b as int, a as int),
        decreases b,
    {
        b = b - 1;
    }
    text::slice_chars(s, a, b)
}

fn json_name(line: &[char]) -> (r: Option<String>)
    ensures
        match json_line_name(line@) {
            Some(n) => r matches Some(t) && t@ == n,
            None => r is None,
        },
{
    let t = text::trim_chars(line);
    let prefix = text::chars_of("\"name\"");
    if !text::starts_with(t.as_slice(), prefix.as_slice()) {
        return None;
    }
    let rest = text::slice_chars(t.as_slice(), prefix.len(), t.len());
    assert(rest@ == t@.skip(prefix@.len() as int));
    match text::split_once_char(rest.as_slice(), ':') {
        Some((_, value)) => {
            let v = text::trim_chars(value.as_slice());
            let v = trim_matches_chars(v.as_slice(), ',');
            let v = trim_matches_chars(v.as_slice(), '"');
            Some(text::string_of(v.as_slice()))
        },
        None => None,
    }
}

/// Whether a name is one the rules skip as a directory.
fn ignored_names(rules: &InitRules) -> (r: Vec<String>)
    ensures
        forall|c: Seq<char>| text::views(r@).contains(c) <==> ignored_name(rules.ignores@, c),
{
    let mut r: Vec<String> = Vec::new();
    let mut i: usize = 0;
    while i < rules.ignores.len()
        invariant
            i <= rules.ignores@.len(),
            forall|c: Seq<char>| text::views(r@).contains(c) <==> ignored_name(rules.ignores@.take(i as int), c),
        decreases rules.ignores@.len() - i,
    {
        let rule = &rules.ignores[i];
        let ghost before = r@;
        let ghost t = rules.ignores@.take(i + 1);
        if text::same(rule.kind.as_str(), "directory") && text::chars_of(rule.path.as_str()).len() > 0 {
            r.push(text::owned(rule.path.as_str()));
            assert(text::views(r@) =~= text::views(before).push(rule.path@));
            proof {
                text::lemma_contains_push(text::views(before), rule.path@);
            }
        }
        proof {
            assert(t == rules.ignores@.take(i as int).push(rules.ignores@[i as int]));
            assert forall|c: Seq<char>| text::views(r@).contains(c) <==> ignored_name(t, c) by {
                if ignored_name(t, c) {
                    let j = choose|j: int| 0 <= j < t.len() && (#[trigger] t[j]).kind@ == "directory"@ && t[j].path@ == c;
                    if j < i {
                        assert(rules.ignores@.take(i as int)[j] == t[j]);
                        assert(ignored_name(rules.ignores@.take(i as int), c));
                    }
                }
                if ignored_name(rules.ignores@.take(i as int), c) {
                    let j = choose|j: int| 0 <= j < i && (#[trigger] rules.ignores@.take(i as int)[j]).kind@ == "directory"@
                        && rules.ignores@.take(i as int)[j].path@ == c;
                    assert(t[j] == rules.ignores@.take(i as int)[j]);
                }
                if text::views(r@).contains(c) && !text::views(before).contains(c) {
                    assert(t[i as int] == rules.ignores@[i as int]);
                }
            }
        }
        i = i + 1;
    }
    assert(rules.ignores@.take(i as int) == rules.ignores@);
    r
}

fn component_listed(path: &str, names: &Vec<String>) -> (r: bool)
    ensures
        r == some_component(path@, |c: Seq<char>| text::views(names@).contains(c)),
{
    let cs = text::chars_of(path);
    let parts = text::split_char(cs.as_slice(), '/');
    let ghost pieces = parts@.map_values(|p: Vec<char>| p@);
    let mut i: usize = 0;
    while i < parts.len()
        invariant
            i <= parts@.len(),
            pieces == text::split(path@, '/'),
            pieces == parts@.map_values(|p: Vec<char>| p@),
            forall|j: int| 0 <= j < i ==> !text::views(names@).contains(#[trigger] pieces[j]),
        decreases parts@.len() - i,
    {
        let piece = text::string_of(parts[i].as_slice());
        assert(pieces[i as int] == parts@[i as int]@);
        if lists(names, piece.as_str()) {
            assert((|c: Seq<char>| text::views(names@).contains(c))(text::split(path@, '/')[i as int]));
            return true;
        }
        i = i + 1;
    }
    false
}

/// Whether the scan reaches an entry.
pub fn is_visible(entry: &ScanEntry, rules: &InitRules) -> (r: bool)
    ensures
        r == visible(*entry, *rules),
{
    let names = ignored_names(rules);
    let dirs = if entry.directory {
        text::owned(entry.path.as_str())
    } else {
        paths::parent_of(entry.path.as_str())
    };
    let hit = component_listed(dirs.as_str(), &names);
    assert((|c: Seq<char>| text::views(names@).contains(c)) == (|c: Seq<char>| ignored_name(rules.ignores@, c)));
    !hit
}

/// The first file rule named `name`.
fn find_file_rule(rules: &InitRules, name: &str) -> (r: Option<usize>)
    ensures
        match r {
            Some(k) => file_rule(rules.files@, name@) == Some(k as int) && k < rules.files@.len(),
            None => file_rule(rules.files@, name@) is None,
        },
{
    let mut i: usize = 0;
    while i < rules.files.len()
        invariant
            i <= rules.files@.len(),
            forall|j: int| 0 <= j < i ==> (#[trigger] rules.files@[j]).name@ != name@,
        decreases rules.files@.len() - i,
    {
        if text::same(rules.files[i].name.as_str(), name) {
            proof {
                let c = file_rule(rules.files@, name@)->0;
                assert(rules.files@[i as int].name@ == name@);
                assert(0 <= c < rules.files@.len() && rules.files@[c].name@ == name@);
                if c < i {
                    assert(rules.files@[c].name@ != name@);
                }
                if c > i {
                    assert(rules.files@[i as int].name@ != name@);
                }
            }
            return Some(i);
        }
        i = i + 1;
    }
    None
}

/// The name of a file that the rules read the project name from.
pub fn reads_project_name(rules: &InitRules, name: &str) -> (r: bool)
    ensures
        r == (file_rule(rules.files@, name@) matches Some(k) && rules.files@[k].project_name is Some),
{
    match find_file_rule(rules, name) {
        Some(k) => rules.files[k].project_name.is_some(),
        None => false,
    }
}

/// Whether some entry has this path (a file, when `file` holds).
pub fn find_entry(entries: &Vec<ScanEntry>, path: &str, file: bool) -> (r: bool)
    ensures
        r == has_entry(entries@, path@, file),
{
    let mut i: usize = 0;
    while i < entries.len()
        invariant
            i <= entries@.len(),
            forall|j: int| 0 <= j < i ==> !((#[trigger] entries@[j]).path@ == path@ && (!file || !entries@[j].directory)),
        decreases entries@.len() - i,
    {
        if text::same(entries[i].path.as_str(), path) && (!file || !entries[i].directory) {
            assert(entries@[i as int].path@ == path@);
            return true;
        }
        i = i + 1;
    }
    false
}

/// The file name of an entry, or the empty text.
fn name_of(entry: &ScanEntry) -> (r: String)
    ensures
        r@ == entry_name(*entry),
{
    match paths::file_name_of(entry.path.as_str()) {
        Some(n) => n,
        None => String::new(),
    }
}

/// Whether the rules name `name` as a test directory.
fn test_directory_name(rules: &InitRules, name: &str) -> (r: bool)
    ensures
        r == rule_test_directory(rules.conventions@, name@),
{
    let mut i: usize = 0;
    while i < rules.conventions.len()
        invariant
            i <= rules.conventions@.len(),
            forall|j: int| 0 <= j < i ==> !((#[trigger] rules.conventions@[j]).name@ == "test_directories"@
                && text::views(rules.conventions@[j].values@).contains(name@)),
        decreases rules.conventions@.len() - i,
    {
        let rule = &rules.conventions[i];
        if text::same(rule.name.as_str(), "test_directories") && lists(&rule.values, name) {
            return true;
        }
        i = i + 1;
    }
    false
}

/// Whether a layout rule names `name` as a source directory.
fn layout_source_name(rules: &InitRules, name: &str) -> (r: bool)
    ensures
        r == exists|i: int| 0 <= i < rules.layouts@.len() && (#[trigger] rules.layouts@[i]).role@ == "source"@
            && rules.layouts@[i].directory@ == name@,
{
    let mut i: usize = 0;
    while i < rules.layouts.len()
        invariant
            i <= rules.layouts@.len(),
            forall|j: int| 0 <= j < i ==> !((#[trigger] rules.layouts@[j]).role@ == "source"@
                && rules.layouts@[j].directory@ == name@),
        decreases rules.layouts@.len() - i,
    {
        let rule = &rules.layouts[i];
        if text::same(rule.role.as_str(), "source") && text::same(rule.directory.as_str(), name) {
            return true;
        }
        i = i + 1;
    }
    false
}

/// Adds a path to a list unless the list holds it.
fn add_path(v: &mut Vec<String>, x: &str)
    ensures
        text::views(final(v)@) == add_new(text::views(old(v)@), x@),
{
    if lists(v, x) {
        return;
    }
    let ghost before = v@;
    v.push(text::owned(x));
    assert(text::views(v@) =~= text::views(before).push(x@));
}

fn push_path(v: &mut Vec<String>, x: &str)
    ensures
        text::views(final(v)@) == text::views(old(v)@).push(x@),
{
    let ghost before = v@;
    v.push(text::owned(x));
    assert(text::views(v@) =~= text::views(before).push(x@));
}

/// What the scan has found so far.
struct Findings {
    sources: Vec<String>,
    headers: Vec<String>,
    manifests: Vec<String>,
    formatters: Vec<String>,
    existing: Vec<String>,
    tests: Vec<String>,
    source_dirs: Vec<String>,
    builds: Vec<String>,
    languages: Vec<Language>,
    name: Option<String>,
    nix: bool,
}

/// What the findings are after the entries `es`.
spec fn findings_after(f: Findings, es: Seq<ScanEntry>, rules: InitRules) -> bool {
    &&& text::views(f.sources@) == select(es, |e: ScanEntry| is_source(e, rules))
    &&& text::views(f.headers@) == select(es, |e: ScanEntry| is_header(e, rules))
    &&& text::views(f.manifests@) == select(es, |e: ScanEntry| is_manifest(e, rules))
    &&& text::views(f.formatters@) == select(es, |e: ScanEntry| is_formatter_config(e, rules))
    &&& text::views(f.existing@) == select(es, |e: ScanEntry| visible_file(e, rules))
    &&& text::views(f.tests@) == test_directories(es, rules)
    &&& text::views(f.source_dirs@) == source_directories(es, rules)
    &&& text::views(f.builds@) == build_systems(es, rules)
    &&& ordered_languages(f.languages@)
    &&& forall|l: Language| f.languages@.contains(l) <==> found_language(es, rules, l)
    &&& match project_name(es, rules) {
        Some(n) => f.name matches Some(t) && t@ == n,
        None => f.name is None,
    }
    &&& f.nix == found_nix(es, rules)
}

/// The project name in an entry's contents, for the rule `k`.
fn name_from(entry: &ScanEntry, rules: &InitRules, k: usize) -> (r: Option<String>)
    requires
        entry_rule(*entry, *rules) == Some(k as int),
        k < rules.files@.len(),
    ensures
        match entry_project_name(*entry, *rules) {
            Some(n) => r matches Some(t) && t@ == n,
            None => r is None,
        },
{
    let (toml, json) = match &rules.files[k].project_name {
        Some(p) => (text::same(p.as_str(), "toml_name"), text::same(p.as_str(), "json_name")),
        None => (false, false),
    };
    match &entry.contents {
        Some(t) => if toml {
            contents_name(t.as_str(), false)
        } else if json {
            contents_name(t.as_str(), true)
        } else {
            None
        },
        None => None,
    }
}

/// Adds languages to an ordered set of languages.
fn insert_languages(v: &mut Vec<Language>, ls: &Vec<Language>)
    requires
        ordered_languages(old(v)@),
    ensures
        ordered_languages(final(v)@),
        forall|x: Language| #[trigger] final(v)@.contains(x) <==> (old(v)@.contains(x) || ls@.contains(x)),
{
    let mut j: usize = 0;
    while j < ls.len()
        invariant
            j <= ls@.len(),
            ordered_languages(v@),
            forall|x: Language| v@.contains(x) <==> (old(v)@.contains(x) || ls@.take(j as int).contains(x)),
        decreases ls@.len() - j,
    {
        let ghost mid = v@;
        let x0 = ls[j];
        insert_language(v, x0);
        proof {
            assert(ls@.take(j + 1) == ls@.take(j as int).push(x0));
            text::lemma_contains_push(ls@.take(j as int), x0);
            assert forall|x: Language| v@.contains(x) <==> (old(v)@.contains(x) || ls@.take(j + 1).contains(x)) by {
                assert(v@.contains(x) <==> (mid.contains(x) || x == x0));
                assert(ls@.take(j as int).push(x0).contains(x) <==> (ls@.take(j as int).contains(x) || x == x0));
            }
        }
        j = j + 1;
    }
    assert(ls@.take(j as int) == ls@);
}

/// Records what a reached file tells.
#[verifier::rlimit(40)]
fn visit_file(f: &mut Findings, entry: &ScanEntry, rules: &InitRules, es: Ghost<Seq<ScanEntry>>)
    requires
        visible_file(*entry, *rules),
        findings_after(*old(f), es@, *rules),
    ensures
        findings_after(*final(f), es@.push(*entry), *rules),
{
    let ghost t = es@.push(*entry);
    assert(t.drop_last() =~= es@);
    assert(t.last() == *entry);
    let path = entry.path.as_str();
    push_path(&mut f.existing, path);
    let name = name_of(entry);
    let rule = find_file_rule(rules, name.as_str());
    assert(entry_rule(*entry, *rules) == file_rule(rules.files@, entry_name(*entry)));
    let ghost before_languages = f.languages@;
    match rule {
        Some(k) => {
            let r = &rules.files[k];
            let mut langs: Vec<Language> = Vec::new();
            std::mem::swap(&mut langs, &mut f.languages);
            insert_languages(&mut langs, &r.languages);
            std::mem::swap(&mut langs, &mut f.languages);
            assert(r.languages@ == rules.files@[k as int].languages@);
            assert(forall|x: Language| f.languages@.contains(x) <==> (before_languages.contains(x)
                || rules.files@[k as int].languages@.contains(x)));
            let nix = match &r.build_system {
                Some(b) => text::same(b.as_str(), "Nix"),
                None => false,
            };
            if nix {
                f.nix = true;
            }
            if r.languages.len() > 0 && r.build_system.is_some() {
                push_path(&mut f.manifests, path);
            }
            match &r.build_system {
                Some(b) => push_path(&mut f.builds, b.as_str()),
                None => push_path(&mut f.formatters, path),
            }
            if f.name.is_none() {
                f.name = name_from(entry, rules, k);
            }
        },
        None => {
            assert(entry_rule(*entry, *rules) is None);
        },
    }
    let ghost after_rule = f.languages@;
    assert(forall|x: Language| after_rule.contains(x) <==> (before_languages.contains(x)
        || (entry_rule(*entry, *rules) matches Some(k) && rules.files@[k].languages@.contains(x))));
    match Language::from_path_with_rules(path, rules) {
        Some(l) => {
            proof {
                lemma_first_rule_language(rules.languages@, |rule: LanguageRule| rule_has_extension(rule, entry.path@), Some(l));
            }
            insert_language(&mut f.languages, l);
            push_path(&mut f.sources, path);
            let parent = paths::parent_of(path);
            add_path(&mut f.source_dirs, parent.as_str());
        },
        None => {
            proof {
                lemma_first_rule_language(rules.languages@, |rule: LanguageRule| rule_has_extension(rule, entry.path@), None);
            }
        },
    }
    if Language::is_header_with_rules(path, rules) {
        push_path(&mut f.headers, path);
    }
    assert forall|l: Language| f.languages@.contains(l) <==> found_language(t, *rules, l) by {
        assert(f.languages@.contains(l) <==> (after_rule.contains(l) || source_language(entry.path@, *rules) == Some(l)));
        assert(found_language(t, *rules, l) == (found_language(es@, *rules, l) || tells_language(*entry, *rules, l)));
    }
}

/// Records what a reached directory tells.
fn visit_directory(f: &mut Findings, entry: &ScanEntry, rules: &InitRules, es: Ghost<Seq<ScanEntry>>)
    requires
        visible(*entry, *rules),
        entry.directory,
        findings_after(*old(f), es@, *rules),
    ensures
        findings_after(*final(f), es@.push(*entry), *rules),
{
    let ghost t = es@.push(*entry);
    assert(t.drop_last() =~= es@);
    assert(t.last() == *entry);
    let path = entry.path.as_str();
    match paths::file_name_of(path) {
        Some(n) => {
            if test_directory_name(rules, n.as_str()) {
                add_path(&mut f.tests, path);
            }
        },
        None => {},
    }
    let name = name_of(entry);
    if layout_source_name(rules, name.as_str()) {
        add_path(&mut f.source_dirs, path);
    }
    assert(f.languages@ == old(f).languages@);
    assert forall|l: Language| f.languages@.contains(l) <==> found_language(t, *rules, l) by {
        assert(!tells_language(*entry, *rules, l));
        assert(found_language(t, *rules, l) == found_language(es@, *rules, l));
    }
}

/// What a scan of `entries` finds (see `scan`).
pub open spec fn scanned(r: ProjectInfo, root: Seq<char>, entries: Seq<ScanEntry>, rules: InitRules) -> bool {
    &&& r.root@ == root
    &&& paths::sorted_paths(r.source_files@)
    &&& text::views(r.source_files@).to_multiset() == select(entries, |e: ScanEntry| is_source(e, rules)).to_multiset()
    &&& paths::sorted_paths(r.header_files@)
    &&& text::views(r.header_files@).to_multiset() == select(entries, |e: ScanEntry| is_header(e, rules)).to_multiset()
    &&& paths::sorted_paths(r.package_manifests@)
    &&& text::views(r.package_manifests@).to_multiset() == select(entries, |e: ScanEntry| is_manifest(e, rules)).to_multiset()
    &&& paths::sorted_paths(r.formatter_configs@)
    &&& text::views(r.formatter_configs@).to_multiset() == select(entries, |e: ScanEntry| is_formatter_config(e, rules)).to_multiset()
    &&& text::views(r.existing_files@) == select(entries, |e: ScanEntry| visible_file(e, rules))
    &&& text::views(r.test_directories@) == test_directories(entries, rules)
    &&& text::views(r.source_directories@) == source_directories(entries, rules)
    &&& text::views(r.build_systems@) == build_systems(entries, rules)
    &&& ordered_languages(r.languages@)
    &&& forall|l: Language| r.languages@.contains(l) <==> project_language(entries, rules, l)
    &&& match project_name(entries, rules) {
        Some(n) => r.name matches Some(t) && t@ == n,
        None => r.name is None,
    }
    &&& r.project_type is None
    &&& r.has_flake == (has_entry(entries, "flake.nix"@, true) || found_nix(entries, rules))
    &&& r.has_nix_formatter == has_entry(entries, "nix/formatter.nix"@, true)
    &&& r.has_nox_build == has_entry(entries, "nox.build"@, true)
    &&& r.has_noxfile == has_entry(entries, "noxfile"@, true)
    &&& r.has_git == has_entry(entries, ".git"@, false)
    &&& r.has_readme == (has_entry(entries, "README"@, false) || has_entry(entries, "README.md"@, false))
    &&& r.has_tests == (test_directories(entries, rules).len() > 0)
}

/// Scans the entries below `root`: the files and directories that tell
/// which languages, sources, headers, manifests and conventions the
/// project has. Entries in a skipped directory are passed over.
pub fn scan(root: &str, entries: &Vec<ScanEntry>, rules: &InitRules) -> (r: ProjectInfo)
    ensures
        scanned(r, root@, entries@, *rules),
{
    let mut f = Findings {
        sources: Vec::new(),
        headers: Vec::new(),
        manifests: Vec::new(),
        formatters: Vec::new(),
        existing: Vec::new(),
        tests: Vec::new(),
        source_dirs: Vec::new(),
        builds: Vec::new(),
        languages: Vec::new(),
        name: None,
        nix: false,
    };
    proof {
        let e0 = entries@.take(0);
        assert(e0 =~= Seq::<ScanEntry>::empty());
        assert(text::views(f.sources@) =~= Seq::<Seq<char>>::empty());
        assert(text::views(f.headers@) =~= Seq::<Seq<char>>::empty());
        assert(text::views(f.manifests@) =~= Seq::<Seq<char>>::empty());
        assert(text::views(f.formatters@) =~= Seq::<Seq<char>>::empty());
        assert(text::views(f.existing@) =~= Seq::<Seq<char>>::empty());
        assert(text::views(f.tests@) =~= Seq::<Seq<char>>::empty());
        assert(text::views(f.source_dirs@) =~= Seq::<Seq<char>>::empty());
        assert(text::views(f.builds@) =~= Seq::<Seq<char>>::empty());
        assert(forall|l: Language| !found_language(e0, *rules, l));
        assert(findings_after(f, e0, *rules));
    }
    let mut i: usize = 0;
    while i < entries.len()
        invariant
            i <= entries@.len(),
            findings_after(f, entries@.take(i as int), *rules),
        decreases entries@.len() - i,
    {
        let entry = &entries[i];
        assert(entries@.take(i + 1) == entries@.take(i as int).push(*entry));
        if is_visible(entry, rules) {
            if entry.directory {
                visit_directory(&mut f, entry, rules, Ghost(entries@.take(i as int)));
            } else {
                visit_file(&mut f, entry, rules, Ghost(entries@.take(i as int)));
            }
        } else {
            let ghost t = entries@.take(i + 1);
            assert(t.drop_last() =~= entries@.take(i as int));
            assert(t.last() == *entry);
            assert forall|l: Language| f.languages@.contains(l) <==> found_language(t, *rules, l) by {
                assert(!tells_language(*entry, *rules, l));
                assert(found_language(t, *rules, l) == found_language(entries@.take(i as int), *rules, l));
            }
        }
        i = i + 1;
    }
    assert(entries@.take(i as int) == entries@);
    if crate::rules::init::contains_language(&f.languages, Language::JavaScript) && lists(&f.existing, "tsconfig.json") {
        remove_language(&mut f.languages, Language::JavaScript);
        insert_language(&mut f.languages, Language::TypeScript);
    }
    let has_tests = f.tests.len() > 0;
    ProjectInfo {
        root: text::owned(root),
        name: f.name,
        languages: f.languages,
        source_files: paths::sort_paths(f.sources),
        header_files: paths::sort_paths(f.headers),
        source_directories: f.source_dirs,
        test_directories: f.tests,
        existing_files: f.existing,
        package_manifests: paths::sort_paths(f.manifests),
        build_systems: f.builds,
        formatter_configs: paths::sort_paths(f.formatters),
        project_type: None,
        has_flake: find_entry(entries, "flake.nix", true) || f.nix,
        has_nix_formatter: find_entry(entries, "nix/formatter.nix", true),
        has_nox_build: find_entry(entries, "nox.build", true),
        has_noxfile: find_entry(entries, "noxfile", true),
        has_git: find_entry(entries, ".git", false),
        has_readme: find_entry(entries, "README", false) || find_entry(entries, "README.md", false),
        has_tests,
    }
}

/// The paths of `s` that satisfy `p`, in order.
pub open spec fn keep(s: Seq<Seq<char>>, p: spec_fn(Seq<char>) -> bool) -> Seq<Seq<char>>
    decreases s.len(),
{
    if s.len() == 0 {
        s
    } else if p(s.last()) {
        keep(s.drop_last(), p).push(s.last())
    } else {
        keep(s.drop_last(), p)
    }
}

/// Whether a source file of `language` counts as a project source: it is
/// of that language by the rules and lies in no test directory.
pub open spec fn project_source(path: Seq<char>, language: Language, rules: InitRules) -> bool {
    source_language(path, rules) == Some(language) && !in_rule_test_directory(path, rules.conventions@)
}

/// The project's source files of a language, outside test directories.
pub fn source_files(project: &ProjectInfo, language: Language, rules: &InitRules) -> (r: Vec<String>)
    ensures
        text::views(r@) == keep(text::views(project.source_files@), |p: Seq<char>| project_source(p, language, *rules)),
{
    let ghost pred = |p: Seq<char>| project_source(p, language, *rules);
    let mut r: Vec<String> = Vec::new();
    let mut i: usize = 0;
    while i < project.source_files.len()
        invariant
            i <= project.source_files@.len(),
            pred == (|p: Seq<char>| project_source(p, language, *rules)),
            text::views(r@) == keep(text::views(project.source_files@).take(i as int), pred),
        decreases project.source_files@.len() - i,
    {
        let path = project.source_files[i].as_str();
        let ghost t = text::views(project.source_files@).take(i + 1);
        assert(t.drop_last() == text::views(project.source_files@).take(i as int));
        assert(t.last() == path@);
        let l = Language::from_path_with_rules(path, rules);
        proof {
            lemma_first_rule_language(rules.languages@, |rule: LanguageRule| rule_has_extension(rule, path@), l);
        }
        if l == Some(language) && !crate::init::language::is_test_path_with_rules(path, rules) {
            push_path(&mut r, path);
        }
        i = i + 1;
    }
    assert(text::views(project.source_files@).take(i as int) == text::views(project.source_files@));
    r
}

/// Law: a scan reports its root, lists sources, headers, manifests and
/// formatter configurations in path order, reports tests exactly when it
/// found a test directory, and never reports JavaScript beside a
/// `tsconfig.json` (such a project is read as TypeScript).
pub proof fn lemma_scan_consistent(r: ProjectInfo, root: Seq<char>, entries: Seq<ScanEntry>, rules: InitRules)
    requires
        scanned(r, root, entries, rules),
    ensures
        r.root@ == root,
        paths::sorted_paths(r.source_files@),
        paths::sorted_paths(r.header_files@),
        paths::sorted_paths(r.package_manifests@),
        paths::sorted_paths(r.formatter_configs@),
        r.has_tests == (r.test_directories@.len() > 0),
        !(r.languages@.contains(Language::JavaScript) && text::views(r.existing_files@).contains("tsconfig.json"@)),
{
    assert(text::views(r.test_directories@).len() == r.test_directories@.len());
    if r.languages@.contains(Language::JavaScript) {
        assert(project_language(entries, rules, Language::JavaScript));
    }
}

} // verus!
