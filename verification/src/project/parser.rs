//! The `nox.build` parser.
//!
//! Values that come from outside the text (`file(...)`, `glob(...)` and
//! backtick commands) are looked up in a `Resolver` that the caller fills
//! beforehand; `requests` lists what a text needs.
use vstd::prelude::*;
use crate::domain::error::Error;
use crate::domain::model::{Project, Setting, Target, TargetKind, TargetLanguage, language_named};
use crate::project::lexer::{Token, Tok, lex, lex_spec, toks};
use crate::text;

verus! {

/// An entry of a directory listed for `glob(...)`.
#[derive(Clone, Debug)]
pub struct DirEntry {
    /// The entry's path relative to the project root, as the platform writes it.
    pub relative: String,
    /// The entry's file name.
    pub file_name: String,
    pub is_file: bool,
}

/// Something a `nox.build` text needs from outside before it can be parsed.
#[derive(Clone, Debug, PartialEq, Eq)]
pub enum Request {
    /// The contents of a project-relative file (for `version = file(...)`).
    File(String),
    /// The SPDX identifier of a project-relative license file.
    License(String),
    /// The entries of a project-relative directory (for `glob(...)`).
    List(String),
    /// The output of a backtick command.
    Command(String),
}

/// Answers to the requests of a text, keyed by the text of each request.
#[derive(Clone, Debug)]
pub struct Resolver {
    pub files: Vec<(String, Result<String, String>)>,
    pub licenses: Vec<(String, Result<Option<String>, String>)>,
    pub listings: Vec<(String, Result<Vec<DirEntry>, String>)>,
    pub commands: Vec<(String, Result<String, String>)>,
}

impl Resolver {
    /// A resolver that answers nothing.
    pub fn empty() -> (r: Resolver)
        ensures
            r.files@.len() == 0 && r.licenses@.len() == 0 && r.listings@.len() == 0
                && r.commands@.len() == 0,
    {
        Resolver { files: Vec::new(), licenses: Vec::new(), listings: Vec::new(), commands: Vec::new() }
    }
}

/// A value bound with `let`.
#[derive(Clone, Debug)]
pub enum Binding {
    Str(String),
    Bool(bool),
    List(Vec<String>),
}

/// `Path::join` on text: an absolute `rel` replaces `root`.
pub open spec fn join_path(root: Seq<char>, rel: Seq<char>) -> Seq<char> {
    if rel.len() > 0 && rel[0] == '/' {
        rel
    } else if root.len() == 0 {
        rel
    } else if root.last() == '/' {
        root + rel
    } else {
        root + seq!['/'] + rel
    }
}

pub fn join_path_exec(root: &str, rel: &str) -> (r: String)
    ensures
        r@ == join_path(root@, rel@),
{
    let rc = text::chars_of(rel);
    let oc = text::chars_of(root);
    if rc.len() > 0 && rc[0] == '/' {
        rel.to_owned()
    } else if oc.len() == 0 {
        rel.to_owned()
    } else if oc[oc.len() - 1] == '/' {
        text::concat(root, rel)
    } else {
        let mut r = root.to_owned();
        text::push_char(&mut r, '/');
        r.append(rel);
        r
    }
}

/// The last `/`-separated segment of `s`.
pub open spec fn last_segment(s: Seq<char>) -> Seq<char>
    decreases s.len(),
{
    if s.len() == 0 {
        s
    } else if s.last() == '/' {
        Seq::empty()
    } else {
        last_segment(s.drop_last()).push(s.last())
    }
}

fn last_segment_exec(s: &Vec<char>) -> (r: Vec<char>)
    ensures
        r@ == last_segment(s@),
{
    let mut k = s.len();
    assert(s@.take(s@.len() as int) == s@);
    assert(s@.skip(s@.len() as int) == Seq::<char>::empty());
    while k > 0 && s[k - 1] != '/'
        invariant
            k <= s@.len(),
            last_segment(s@) == last_segment(s@.take(k as int)) + s@.skip(k as int),
        decreases k,
    {
        assert(s@.take(k as int).drop_last() == s@.take(k - 1));
        assert(s@.skip(k - 1) == seq![s@[k - 1]] + s@.skip(k as int));
        k = k - 1;
    }
    assert(last_segment(s@.take(k as int)) == Seq::<char>::empty());
    text::slice_chars(s, k, s.len())
}

/// Whether a listed entry matches a glob.
pub open spec fn glob_matches(prefix: Seq<char>, suffix: Seq<char>, e: DirEntry) -> bool {
    e.is_file && text::has_prefix(e.file_name@, last_segment(prefix)) && text::has_suffix(
        e.file_name@,
        suffix,
    )
}

/// Backslashes as forward slashes.
pub open spec fn slashed(s: Seq<char>) -> Seq<char> {
    s.map_values(|c: char| if c == '\\' { '/' } else { c })
}

fn slashed_exec(s: &str) -> (r: String)
    ensures
        r@ == slashed(s@),
{
    let cs = text::chars_of(s);
    let mut out: Vec<char> = Vec::new();
    let mut i: usize = 0;
    while i < cs.len()
        invariant
            i <= cs@.len(),
            cs@ == s@,
            out@ == slashed(cs@.take(i as int)),
        decreases cs@.len() - i,
    {
        out.push(if cs[i] == '\\' { '/' } else { cs[i] });
        assert(slashed(cs@.take(i + 1)) == slashed(cs@.take(i as int)).push(
            if cs@[i as int] == '\\' { '/' } else { cs@[i as int] },
        ));
        i = i + 1;
    }
    assert(cs@.take(cs@.len() as int) == cs@);
    text::string_of(&out)
}

/// The sorted relative paths of the listed files that match a glob.
pub fn expand_glob(prefix: &Vec<char>, suffix: &Vec<char>, entries: &Vec<DirEntry>) -> (r: Vec<String>)
    ensures
        text::sorted_texts(r@),
        text::views(r@).to_multiset() == matching_paths(prefix@, suffix@, entries@).to_multiset(),
{
    let segment = last_segment_exec(prefix);
    let mut found: Vec<String> = Vec::new();
    let mut i: usize = 0;
    while i < entries.len()
        invariant
            i <= entries@.len(),
            segment@ == last_segment(prefix@),
            text::views(found@) == matching_paths(prefix@, suffix@, entries@.take(i as int)),
        decreases entries@.len() - i,
    {
        let e = &entries[i];
        let name = text::chars_of(e.file_name.as_str());
        assert(entries@.take(i + 1).drop_last() == entries@.take(i as int));
        if e.is_file && text::starts_with(&name, &segment) && text::ends_with(&name, suffix) {
            let p = slashed_exec(e.relative.as_str());
            let ghost before = found@;
            found.push(p);
            assert(text::views(found@) == text::views(before).push(p@));
        }
        i = i + 1;
    }
    assert(entries@.take(entries@.len() as int) == entries@);
    text::sort_strings(found)
}

/// The slashed relative paths of matching entries, in listing order.
pub open spec fn matching_paths(prefix: Seq<char>, suffix: Seq<char>, es: Seq<DirEntry>) -> Seq<Seq<char>>
    decreases es.len(),
{
    if es.len() == 0 {
        Seq::empty()
    } else {
        let rest = matching_paths(prefix, suffix, es.drop_last());
        if glob_matches(prefix, suffix, es.last()) {
            rest.push(slashed(es.last().relative@))
        } else {
            rest
        }
    }
}

/// A target whose kind needs no sources (a Gradle task target).
pub open spec fn sourceless_kind(k: TargetKind) -> bool {
    k == TargetKind::Executable { language: Some(TargetLanguage::Gradle) }
}

/// What every parsed project satisfies: it has a target, every target
/// that compiles sources has one, and names are unique keys in settings
/// and environment entries.
pub open spec fn well_formed_project(p: Project) -> bool {
    &&& p.targets@.len() > 0
    &&& forall|i: int|
        0 <= i < p.targets@.len() ==> (#[trigger] p.targets@[i]).sources@.len() > 0
            || sourceless_kind(p.targets@[i].kind)
    &&& unique_keys(keys(p.extra_env@))
    &&& unique_keys(keys(p.settings@))
}

pub open spec fn unique_keys(ks: Seq<Seq<char>>) -> bool {
    ks.no_duplicates()
}

/// The keys of a list of entries.
pub open spec fn keys<T>(v: Seq<(String, T)>) -> Seq<Seq<char>> {
    v.map_values(|e: (String, T)| e.0@)
}

fn copy_strings(v: &Vec<String>) -> (r: Vec<String>)
    ensures
        r@ == v@,
{
    let mut r: Vec<String> = Vec::new();
    let mut i: usize = 0;
    while i < v.len()
        invariant
            i <= v@.len(),
            r@ == v@.take(i as int),
        decreases v@.len() - i,
    {
        r.push(v[i].clone());
        assert(v@.take(i + 1) == v@.take(i as int).push(v@[i as int]));
        i = i + 1;
    }
    assert(v@.take(v@.len() as int) == v@);
    r
}

fn copy_settings(v: &Vec<(String, Setting)>) -> (r: Vec<(String, Setting)>)
    ensures
        keys(r@) == keys(v@),
        settings_text(r@) == settings_text(v@),
{
    let mut r: Vec<(String, Setting)> = Vec::new();
    let mut i: usize = 0;
    while i < v.len()
        invariant
            i <= v@.len(),
            keys(r@) == keys(v@.take(i as int)),
            settings_text(r@) == settings_text(v@.take(i as int)),
        decreases v@.len() - i,
    {
        let value = match &v[i].1 {
            Setting::String(s) => Setting::String(s.clone()),
            Setting::List(l) => {
                let copied = copy_strings(l);
                assert(text::views(copied@) == text::views(l@));
                Setting::List(copied)
            },
        };
        assert(setting_text(value) == setting_text(v@[i as int].1));
        let ghost before = r@;
        r.push((v[i].0.clone(), value));
        assert(v@.take(i + 1) == v@.take(i as int).push(v@[i as int]));
        assert(keys(r@) =~= keys(before).push(v@[i as int].0@));
        assert(keys(v@.take(i + 1)) =~= keys(v@.take(i as int)).push(v@[i as int].0@));
        assert(settings_text(r@) =~= settings_text(before).push((v@[i as int].0@, setting_text(v@[i as int].1))));
        assert(settings_text(v@.take(i + 1)) =~= settings_text(v@.take(i as int)).push((v@[i as int].0@, setting_text(v@[i as int].1))));
        i = i + 1;
    }
    assert(v@.take(v@.len() as int) == v@);
    r
}

/// A setting as text.
pub ghost enum SettingText {
    Str(Seq<char>),
    List(Seq<Seq<char>>),
}

pub open spec fn setting_text(s: Setting) -> SettingText {
    match s {
        Setting::String(v) => SettingText::Str(v@),
        Setting::List(vs) => SettingText::List(text::views(vs@)),
    }
}

/// Settings as text.
pub open spec fn settings_text(ss: Seq<(String, Setting)>) -> Seq<(Seq<char>, SettingText)> {
    ss.map_values(|e: (String, Setting)| (e.0@, setting_text(e.1)))
}

proof fn lemma_settings_key(ss: Seq<(String, Setting)>, k: Seq<char>, i: int)
    requires
        0 <= i,
    ensures
        text_key(settings_text(ss), k, i) == first_key(ss, k, i),
    decreases ss.len() - i,
{
    if i < ss.len() {
        lemma_settings_key(ss, k, i + 1);
    }
}

/// The entries with `k` set to `v`, in place of an entry with that key or
/// after the others.
pub open spec fn set_pair<T>(es: Seq<(Seq<char>, T)>, k: Seq<char>, v: T) -> Seq<(Seq<char>, T)> {
    match text_key(es, k, 0) {
        Some(i) => es.update(i, (k, v)),
        None => es.push((k, v)),
    }
}

/// The value of a setting `:= VALUE` at `p` (at `:`), and where it ends:
/// the trimmed output of an answered backtick command, a list, or a string
/// value.
pub open spec fn setting_value(
    ts: Seq<Token>,
    p: int,
    bs: Seq<(Seq<char>, BindingText)>,
    commands: Seq<(String, Result<String, String>)>,
) -> Option<(SettingText, int)> {
    if word_at(ts, p, ":"@) && symbol_at(ts, p + 1, '=') {
        let q = p + 2;
        if 0 <= q < ts.len() && ts[q] is Command {
            match first_key(commands, ts[q]->Command_0@, 0) {
                Some(i) => match commands[i].1 {
                    Ok(out) => Some((SettingText::Str(text::trim(out@)), q + 1)),
                    Err(_) => None,
                },
                None => None,
            }
        } else if symbol_at(ts, q, '[') {
            match strings_value(ts, q, bs) {
                Some((vs, e)) => Some((SettingText::List(vs), e)),
                None => None,
            }
        } else {
            match string_value(ts, q, bs) {
                Some(v) => Some((SettingText::Str(v), q + 1)),
                None => None,
            }
        }
    } else {
        None
    }
}

struct Parser<'a> {
    tokens: Vec<Token>,
    position: usize,
    root: String,
    resolver: &'a Resolver,
    bindings: Vec<(String, Binding)>,
    settings: Vec<(String, Setting)>,
    /// The first value that the resolver could not give.
    missing: Option<Request>,
}

/// Whether the resolver holds no answer for a request.
pub open spec fn unanswered(resolver: &Resolver, q: Request) -> bool {
    match q {
        Request::File(k) => forall|i: int| 0 <= i < resolver.files@.len() ==> resolver.files@[i].0@ != k@,
        Request::License(k) => forall|i: int|
            0 <= i < resolver.licenses@.len() ==> resolver.licenses@[i].0@ != k@,
        Request::List(k) => forall|i: int|
            0 <= i < resolver.listings@.len() ==> resolver.listings@[i].0@ != k@,
        Request::Command(k) => forall|i: int|
            0 <= i < resolver.commands@.len() ==> resolver.commands@[i].0@ != k@,
    }
}

fn parse_error(m: &str) -> (e: Error)
    ensures
        e matches Error::Parse(s) && s@ == m@,
{
    Error::Parse(m.to_owned())
}

fn quoted_error(prefix: &str, name: &str, suffix: &str) -> (e: Error)
    ensures
        e matches Error::Parse(s) && s@ == prefix@ + name@ + suffix@,
{
    let a = text::concat(prefix, name);
    Error::Parse(text::concat(a.as_str(), suffix))
}

fn quoted_config(prefix: &str, name: &str, suffix: &str) -> (e: Error)
    ensures
        e matches Error::Config(s) && s@ == prefix@ + name@ + suffix@,
{
    let a = text::concat(prefix, name);
    Error::Config(text::concat(a.as_str(), suffix))
}

/// The index of the first entry with key `key` from `i` on.
pub open spec fn first_key<T>(entries: Seq<(String, T)>, key: Seq<char>, i: int) -> Option<int>
    decreases entries.len() - i,
{
    if i < 0 || i >= entries.len() {
        None
    } else if entries[i].0@ == key {
        Some(i)
    } else {
        first_key(entries, key, i + 1)
    }
}

proof fn lemma_first_key<T>(entries: Seq<(String, T)>, key: Seq<char>, i: int)
    requires
        0 <= i,
    ensures
        first_key(entries, key, i) matches Some(k) ==> i <= k < entries.len() && entries[k].0@ == key,
    decreases entries.len() - i,
{
    if i < entries.len() {
        lemma_first_key(entries, key, i + 1);
    }
}

fn lookup<T: Clone>(entries: &Vec<(String, T)>, key: &str) -> (r: Option<usize>)
    ensures
        r matches Some(i) ==> i < entries@.len() && entries@[i as int].0@ == key@,
        r is None ==> forall|i: int| 0 <= i < entries@.len() ==> entries@[i].0@ != key@,
        match r {
            Some(i) => first_key(entries@, key@, 0) == Some(i as int),
            None => first_key(entries@, key@, 0) is None,
        },
{
    let mut i: usize = 0;
    while i < entries.len()
        invariant
            i <= entries@.len(),
            forall|j: int| 0 <= j < i ==> entries@[j].0@ != key@,
            first_key(entries@, key@, 0) == first_key(entries@, key@, i as int),
        decreases entries@.len() - i,
    {
        if text::same(entries[i].0.as_str(), key) {
            return Some(i);
        }
        i = i + 1;
    }
    None
}

/// Sets `key` to `value`, replacing an earlier entry with that key.
fn upsert<T>(entries: &mut Vec<(String, T)>, key: String, value: T)
    requires
        keys(old(entries)@).no_duplicates(),
    ensures
        keys(final(entries)@).no_duplicates(),
        exists|i: int| 0 <= i < final(entries)@.len() && final(entries)@[i].0@ == key@,
        match first_key(old(entries)@, key@, 0) {
            Some(i) => final(entries)@ == old(entries)@.update(i, (key, value)),
            None => final(entries)@ == old(entries)@.push((key, value)),
        },
{
    let ghost k = key@;
    let mut i: usize = 0;
    while i < entries.len()
        invariant
            i <= entries@.len(),
            entries@ == old(entries)@,
            keys(old(entries)@).no_duplicates(),
            k == key@,
            forall|j: int| 0 <= j < i ==> entries@[j].0@ != k,
            first_key(old(entries)@, k, 0) == first_key(old(entries)@, k, i as int),
        decreases entries@.len() - i,
    {
        if text::same(entries[i].0.as_str(), key.as_str()) {
            let ghost before = entries@;
            entries.set(i, (key, value));
            assert(keys(entries@) =~= keys(before));
            assert(entries@[i as int].0@ == k);
            assert(before == old(entries)@);
            assert(keys(entries@).no_duplicates());
            return;
        }
        i = i + 1;
    }
    let ghost before = entries@;
    assert(!keys(before).contains(k)) by {
        if keys(before).contains(k) {
            let ks = keys(before);
            let j = choose|j: int| 0 <= j < ks.len() && #[trigger] ks[j] == k;
            assert(before[j].0@ == k);
        }
    }
    entries.push((key, value));
    assert(keys(entries@) =~= keys(before).push(k));
    assert(entries@[before.len() as int].0@ == k);
}

/// Environment entries as text.
pub open spec fn env_text(es: Seq<(String, String)>) -> Seq<(Seq<char>, Seq<char>)> {
    es.map_values(|e: (String, String)| (e.0@, e.1@))
}

/// The index of the first entry with key `k` from `i` on.
pub open spec fn pair_index(es: Seq<(Seq<char>, Seq<char>)>, k: Seq<char>, i: int) -> Option<int>
    decreases es.len() - i,
{
    if i < 0 || i >= es.len() {
        None
    } else if es[i].0 == k {
        Some(i)
    } else {
        pair_index(es, k, i + 1)
    }
}

proof fn lemma_pair_index(es: Seq<(String, String)>, k: Seq<char>, i: int)
    requires
        0 <= i,
    ensures
        pair_index(env_text(es), k, i) == first_key(es, k, i),
    decreases es.len() - i,
{
    if i < es.len() {
        lemma_pair_index(es, k, i + 1);
    }
}

/// The entries with `k` set to `v`, in place of an entry with that key or
/// after the others.
pub open spec fn set_entry(es: Seq<(Seq<char>, Seq<char>)>, k: Seq<char>, v: Seq<char>) -> Seq<(Seq<char>, Seq<char>)> {
    match pair_index(es, k, 0) {
        Some(i) => es.update(i, (k, v)),
        None => es.push((k, v)),
    }
}

/// The text of a word or quoted string token.
pub open spec fn name_text(t: Token) -> Seq<char> {
    match t {
        Token::Word(w) => w@,
        Token::Str(w) => w@,
        _ => Seq::empty(),
    }
}

/// The `KEY = VALUE` entries of an environment block from `p` up to and
/// past the closing `}`, each optionally followed by a comma.
pub open spec fn env_entries(ts: Seq<Token>, p: int, bs: Seq<(Seq<char>, BindingText)>, es: Seq<(Seq<char>, Seq<char>)>) -> Option<(Seq<(Seq<char>, Seq<char>)>, int)>
    decreases ts.len() - p,
{
    if p < 0 || p >= ts.len() {
        None
    } else if symbol_at(ts, p, '}') {
        Some((es, p + 1))
    } else if (ts[p] is Word || ts[p] is Str) && symbol_at(ts, p + 1, '=') && string_value(ts, p + 2, bs) is Some {
        let next = if symbol_at(ts, p + 3, ',') { p + 4 } else { p + 3 };
        env_entries(ts, next, bs, set_entry(es, name_text(ts[p]), string_value(ts, p + 2, bs)->0))
    } else {
        None
    }
}

/// A binding as text.
pub ghost enum BindingText {
    Str(Seq<char>),
    Bool(bool),
    List(Seq<Seq<char>>),
}

pub open spec fn binding_text(b: Binding) -> BindingText {
    match b {
        Binding::Str(v) => BindingText::Str(v@),
        Binding::Bool(v) => BindingText::Bool(v),
        Binding::List(vs) => BindingText::List(text::views(vs@)),
    }
}

/// A declaration `NAME = VALUE` at `p` (after `let`): the name, the value
/// and where it ends. The value is `true`, `false`, the value of a bound
/// word, another word or a quoted string as text, or a list; a name that
/// is bound already is an error.
pub open spec fn declaration(ts: Seq<Token>, p: int, bs: Seq<(Seq<char>, BindingText)>) -> Option<(Seq<char>, BindingText, int)> {
    if 0 <= p < ts.len() && ts[p] is Word && symbol_at(ts, p + 1, '=') {
        let name = ts[p]->Word_0@;
        let q = p + 2;
        if text_key(bs, name, 0) is Some {
            None
        } else if 0 <= q < ts.len() && ts[q] is Word {
            let w = ts[q]->Word_0@;
            let value = if w == "true"@ {
                BindingText::Bool(true)
            } else if w == "false"@ {
                BindingText::Bool(false)
            } else {
                match binding_at(bs, w) {
                    Some(b) => b,
                    None => BindingText::Str(w),
                }
            };
            Some((name, value, q + 1))
        } else if 0 <= q < ts.len() && ts[q] is Str {
            Some((name, BindingText::Str(ts[q]->Str_0@), q + 1))
        } else {
            match strings_value(ts, q, bs) {
                Some((vs, e)) => Some((name, BindingText::List(vs), e)),
                None => None,
            }
        }
    } else {
        None
    }
}

/// Bindings as text.
pub open spec fn binds_text(bs: Seq<(String, Binding)>) -> Seq<(Seq<char>, BindingText)> {
    bs.map_values(|e: (String, Binding)| (e.0@, binding_text(e.1)))
}

/// The index of the first entry with key `k` from `i` on.
pub open spec fn text_key<T>(es: Seq<(Seq<char>, T)>, k: Seq<char>, i: int) -> Option<int>
    decreases es.len() - i,
{
    if i < 0 || i >= es.len() {
        None
    } else if es[i].0 == k {
        Some(i)
    } else {
        text_key(es, k, i + 1)
    }
}

proof fn lemma_text_key(bs: Seq<(String, Binding)>, k: Seq<char>, i: int)
    requires
        0 <= i,
    ensures
        text_key(binds_text(bs), k, i) == first_key(bs, k, i),
    decreases bs.len() - i,
{
    if i < bs.len() {
        lemma_text_key(bs, k, i + 1);
    }
}

/// The binding of a name: the first one bound to it.
pub open spec fn binding_at(bs: Seq<(Seq<char>, BindingText)>, name: Seq<char>) -> Option<BindingText> {
    match text_key(bs, name, 0) {
        Some(i) => Some(bs[i].1),
        None => None,
    }
}

/// A string value at `p`: a quoted string, a word naming a string binding
/// (its value), or another word (itself).
pub open spec fn string_value(ts: Seq<Token>, p: int, bs: Seq<(Seq<char>, BindingText)>) -> Option<Seq<char>> {
    if 0 <= p < ts.len() {
        match ts[p] {
            Token::Str(w) => Some(w@),
            Token::Word(w) => match binding_at(bs, w@) {
                Some(BindingText::Str(v)) => Some(v),
                _ => Some(w@),
            },
            _ => None,
        }
    } else {
        None
    }
}

/// Whether the token at `p` is the symbol `c`.
pub open spec fn symbol_at(ts: Seq<Token>, p: int, c: char) -> bool {
    0 <= p < ts.len() && ts[p] == Token::Symbol(c)
}

/// Whether the token at `p` is the word `w`.
pub open spec fn word_at(ts: Seq<Token>, p: int, w: Seq<char>) -> bool {
    0 <= p < ts.len() && ts[p].view() == Tok::Word(w)
}

/// The items of a bracketed list from `p` (after `[`) up to and past the
/// closing `]`: string values, each optionally followed by a comma.
pub open spec fn list_items(ts: Seq<Token>, p: int, bs: Seq<(Seq<char>, BindingText)>) -> Option<(Seq<Seq<char>>, int)>
    decreases ts.len() - p,
{
    if p < 0 || p >= ts.len() {
        None
    } else if symbol_at(ts, p, ']') {
        Some((Seq::empty(), p + 1))
    } else {
        match string_value(ts, p, bs) {
            None => None,
            Some(v) => {
                let next = if symbol_at(ts, p + 1, ',') { p + 2 } else { p + 1 };
                match list_items(ts, next, bs) {
                    Some((rest, end)) => Some((seq![v] + rest, end)),
                    None => None,
                }
            },
        }
    }
}

/// A list of strings at `p` and where it ends: a word naming a list
/// binding (its items) or a string binding (that one string), or a
/// bracketed list.
pub open spec fn strings_value(ts: Seq<Token>, p: int, bs: Seq<(Seq<char>, BindingText)>) -> Option<(Seq<Seq<char>>, int)> {
    if 0 <= p < ts.len() && ts[p] is Word {
        match binding_at(bs, ts[p]->Word_0@) {
            Some(BindingText::List(vs)) => Some((vs, p + 1)),
            Some(BindingText::Str(v)) => Some((seq![v], p + 1)),
            _ => None,
        }
    } else if symbol_at(ts, p, '[') {
        list_items(ts, p + 1, bs)
    } else {
        None
    }
}

/// A boolean at `p`: `true`, `false`, or a word naming a boolean binding.
pub open spec fn boolean_value(ts: Seq<Token>, p: int, bs: Seq<(Seq<char>, BindingText)>) -> Option<bool> {
    if 0 <= p < ts.len() && ts[p] is Word {
        let w = ts[p]->Word_0@;
        if w == "true"@ {
            Some(true)
        } else if w == "false"@ {
            Some(false)
        } else {
            match binding_at(bs, w) {
                Some(BindingText::Bool(b)) => Some(b),
                _ => None,
            }
        }
    } else {
        None
    }
}

/// The path of `file(PATH)` at `p` and where the call ends.
pub open spec fn file_call(ts: Seq<Token>, p: int, bs: Seq<(Seq<char>, BindingText)>) -> Option<(Seq<char>, int)> {
    if word_at(ts, p, "file"@) && symbol_at(ts, p + 1, '(') && string_value(ts, p + 2, bs) is Some && symbol_at(ts, p + 3, ')') {
        Some((string_value(ts, p + 2, bs)->0, p + 4))
    } else {
        None
    }
}

/// A version at `p` and where it ends: the trimmed contents of an answered
/// `file(PATH)` when they are not empty, or a string value.
pub open spec fn version_value(ts: Seq<Token>, p: int, bs: Seq<(Seq<char>, BindingText)>, files: Seq<(String, Result<String, String>)>) -> Option<(Seq<char>, int)> {
    if word_at(ts, p, "file"@) {
        match file_call(ts, p, bs) {
            Some((relative, end)) => match first_key(files, relative, 0) {
                Some(i) => match files[i].1 {
                    Ok(contents) => if text::trim(contents@).len() > 0 {
                        Some((text::trim(contents@), end))
                    } else {
                        None
                    },
                    Err(_) => None,
                },
                None => None,
            },
            None => None,
        }
    } else {
        match string_value(ts, p, bs) {
            Some(v) => Some((v, p + 1)),
            None => None,
        }
    }
}

/// A license at `p` and where it ends: the identifier found for an
/// answered `file(PATH)`, or a string value.
pub open spec fn license_value(ts: Seq<Token>, p: int, bs: Seq<(Seq<char>, BindingText)>, licenses: Seq<(String, Result<Option<String>, String>)>) -> Option<(Seq<char>, int)> {
    if word_at(ts, p, "file"@) {
        match file_call(ts, p, bs) {
            Some((relative, end)) => match first_key(licenses, relative, 0) {
                Some(i) => match licenses[i].1 {
                    Ok(Some(identifier)) => Some((identifier@, end)),
                    _ => None,
                },
                None => None,
            },
            None => None,
        }
    } else {
        match string_value(ts, p, bs) {
            Some(v) => Some((v, p + 1)),
            None => None,
        }
    }
}

/// Texts in ascending order: the sorted arrangement of `ps`.
pub open spec fn in_order(ps: Seq<Seq<char>>) -> Seq<Seq<char>> {
    choose|gs: Seq<Seq<char>>|
        vstd::relations::sorted_by(gs, |a: Seq<char>, b: Seq<char>| text::text_le(a, b)) && gs.to_multiset() == ps.to_multiset()
}

/// Sorted strings are the sorted arrangement of their texts.
proof fn lemma_in_order(x: Seq<String>, ps: Seq<Seq<char>>)
    requires
        text::sorted_texts(x),
        text::views(x).to_multiset() == ps.to_multiset(),
    ensures
        text::views(x) == in_order(ps),
{
    let leq = |a: Seq<char>, b: Seq<char>| text::text_le(a, b);
    let v = text::views(x);
    assert(vstd::relations::sorted_by(v, leq)) by {
        assert forall|i: int, j: int| 0 <= i < j < v.len() implies #[trigger] leq(v[i], v[j]) by {
            assert(text::text_le(x[i]@, x[j]@));
        }
    }
    text::lemma_text_order();
    assert(vstd::relations::total_ordering(leq)) by {
        assert(vstd::relations::reflexive(leq));
        assert(vstd::relations::antisymmetric(leq));
        assert(vstd::relations::transitive(leq));
        assert(vstd::relations::strongly_connected(leq));
    }
    let gs = in_order(ps);
    assert(vstd::relations::sorted_by(gs, leq) && gs.to_multiset() == ps.to_multiset());
    vstd::seq_lib::lemma_sorted_unique(v, gs, leq);
}

/// A list of paths at `p` joined to the root, and where it ends: the files
/// of `glob(PATTERN)` in ascending order, or a list of strings.
pub open spec fn paths_value(
    ts: Seq<Token>,
    p: int,
    bs: Seq<(Seq<char>, BindingText)>,
    root: Seq<char>,
    listings: Seq<(String, Result<Vec<DirEntry>, String>)>,
) -> Option<(Seq<Seq<char>>, int)> {
    if word_at(ts, p, "glob"@) {
        match glob_call(ts, p, bs) {
            Some((pattern, end)) => match glob_value(pattern, listings) {
                Some(Ok(ps)) => Some((in_order(ps).map_values(|v: Seq<char>| join_path(root, v)), end)),
                _ => None,
            },
            None => None,
        }
    } else {
        match strings_value(ts, p, bs) {
            Some((vs, end)) => Some((vs.map_values(|v: Seq<char>| join_path(root, v)), end)),
            None => None,
        }
    }
}

/// A target as text.
pub struct TargetText {
    pub name: Seq<char>,
    pub kind: TargetKind,
    pub sources: Seq<Seq<char>>,
    pub dependencies: Seq<Seq<char>>,
    pub include_dirs: Seq<Seq<char>>,
    pub defines: Seq<Seq<char>>,
    pub flags: Seq<Seq<char>>,
    pub linker_flags: Seq<Seq<char>>,
    pub gradle_tasks: Seq<Seq<char>>,
    pub gradle_options: Seq<Seq<char>>,
    pub gradle_run_tasks: Seq<Seq<char>>,
    pub gradle_run_options: Seq<Seq<char>>,
    pub install: bool,
}

pub open spec fn target_text(t: Target) -> TargetText {
    TargetText {
        name: t.name@,
        kind: t.kind,
        sources: text::views(t.sources@),
        dependencies: text::views(t.dependencies@),
        include_dirs: text::views(t.include_dirs@),
        defines: text::views(t.defines@),
        flags: text::views(t.flags@),
        linker_flags: text::views(t.linker_flags@),
        gradle_tasks: text::views(t.gradle_tasks@),
        gradle_options: text::views(t.gradle_options@),
        gradle_run_tasks: text::views(t.gradle_run_tasks@),
        gradle_run_options: text::views(t.gradle_run_options@),
        install: t.install,
    }
}

/// A target with nothing set but its name and kind.
pub open spec fn bare_target(name: Seq<char>, kind: TargetKind) -> TargetText {
    TargetText {
        name,
        kind,
        sources: Seq::empty(),
        dependencies: Seq::empty(),
        include_dirs: Seq::empty(),
        defines: Seq::empty(),
        flags: Seq::empty(),
        linker_flags: Seq::empty(),
        gradle_tasks: Seq::empty(),
        gradle_options: Seq::empty(),
        gradle_run_tasks: Seq::empty(),
        gradle_run_options: Seq::empty(),
        install: false,
    }
}

/// A target property `FIELD = VALUE` whose value starts at `q`: the target
/// with the field set, and where the value ends. An unknown field is an
/// error.
pub open spec fn target_property(
    t: TargetText,
    f: Seq<char>,
    ts: Seq<Token>,
    q: int,
    bs: Seq<(Seq<char>, BindingText)>,
    root: Seq<char>,
    listings: Seq<(String, Result<Vec<DirEntry>, String>)>,
) -> Option<(TargetText, int)> {
    if f == "sources"@ {
        match paths_value(ts, q, bs, root, listings) {
            Some((v, e)) => Some((TargetText { sources: v, ..t }, e)),
            None => None,
        }
    } else if f == "dependencies"@ || f == "depends"@ {
        match strings_value(ts, q, bs) {
            Some((v, e)) => Some((TargetText { dependencies: v, ..t }, e)),
            None => None,
        }
    } else if f == "include_dirs"@ || f == "includes"@ {
        match paths_value(ts, q, bs, root, listings) {
            Some((v, e)) => Some((TargetText { include_dirs: v, ..t }, e)),
            None => None,
        }
    } else if f == "defines"@ {
        match strings_value(ts, q, bs) {
            Some((v, e)) => Some((TargetText { defines: v, ..t }, e)),
            None => None,
        }
    } else if f == "flags"@ {
        match strings_value(ts, q, bs) {
            Some((v, e)) => Some((TargetText { flags: v, ..t }, e)),
            None => None,
        }
    } else if f == "linker_flags"@ {
        match strings_value(ts, q, bs) {
            Some((v, e)) => Some((TargetText { linker_flags: v, ..t }, e)),
            None => None,
        }
    } else if f == "gradle_tasks"@ || f == "tasks"@ {
        match strings_value(ts, q, bs) {
            Some((v, e)) => Some((TargetText { gradle_tasks: v, ..t }, e)),
            None => None,
        }
    } else if f == "gradle_options"@ || f == "options"@ {
        match strings_value(ts, q, bs) {
            Some((v, e)) => Some((TargetText { gradle_options: v, ..t }, e)),
            None => None,
        }
    } else if f == "gradle_run_tasks"@ || f == "run_tasks"@ {
        match strings_value(ts, q, bs) {
            Some((v, e)) => Some((TargetText { gradle_run_tasks: v, ..t }, e)),
            None => None,
        }
    } else if f == "gradle_run_options"@ || f == "run_options"@ {
        match strings_value(ts, q, bs) {
            Some((v, e)) => Some((TargetText { gradle_run_options: v, ..t }, e)),
            None => None,
        }
    } else if f == "install"@ {
        match boolean_value(ts, q, bs) {
            Some(b) => Some((TargetText { install: b, ..t }, q + 1)),
            None => None,
        }
    } else {
        None
    }
}

/// The properties of a target from `p` up to and past the closing `}`.
pub open spec fn target_properties(
    t: TargetText,
    ts: Seq<Token>,
    p: int,
    bs: Seq<(Seq<char>, BindingText)>,
    root: Seq<char>,
    listings: Seq<(String, Result<Vec<DirEntry>, String>)>,
) -> Option<(TargetText, int)>
    decreases ts.len() - p,
{
    if p < 0 || p >= ts.len() {
        None
    } else if symbol_at(ts, p, '}') {
        Some((t, p + 1))
    } else if ts[p] is Word && symbol_at(ts, p + 1, '=') {
        match target_property(t, ts[p]->Word_0@, ts, p + 2, bs, root, listings) {
            Some((next, e)) => if e <= p || e > ts.len() {
                None
            } else {
                target_properties(next, ts, e, bs, root, listings)
            },
            None => None,
        }
    } else {
        None
    }
}

/// A target declaration at `p` (after its kind word): its name, then its
/// properties in braces; a target that compiles sources needs some.
/// Why a `nox.build` text is refused: a configuration error or a parse
/// error with its message, or a refusal whose message is left open here.
pub enum Refusal {
    Config(Seq<char>),
    Parse(Seq<char>),
    Other,
}

/// Whether `e` is the error that `f` names.
pub open spec fn refused(e: Error, f: Refusal) -> bool {
    match f {
        Refusal::Config(m) => e matches Error::Config(x) && x@ == m,
        Refusal::Parse(m) => e matches Error::Parse(x) && x@ == m,
        Refusal::Other => true,
    }
}

pub open spec fn target_value(
    kind: TargetKind,
    ts: Seq<Token>,
    p: int,
    bs: Seq<(Seq<char>, BindingText)>,
    root: Seq<char>,
    listings: Seq<(String, Result<Vec<DirEntry>, String>)>,
) -> Result<(TargetText, int), Refusal> {
    if 0 <= p < ts.len() && (ts[p] is Word || ts[p] is Str) && symbol_at(ts, p + 1, '{') {
        let name = match ts[p] {
            Token::Word(w) => w@,
            Token::Str(w) => w@,
            _ => Seq::empty(),
        };
        match target_properties(bare_target(name, kind), ts, p + 2, bs, root, listings) {
            Some((t, e)) => if t.sources.len() == 0 && !sourceless_kind(kind) {
                Err(Refusal::Config("target '"@ + t.name + "' has no sources"@))
            } else {
                Ok((t, e))
            },
            None => Err(Refusal::Other),
        }
    } else {
        Err(Refusal::Other)
    }
}

/// A project as text.
pub struct ProjectText {
    pub name: Seq<char>,
    pub version: Option<Seq<char>>,
    pub version_files: Option<Seq<Seq<char>>>,
    pub description: Seq<char>,
    pub license: Seq<char>,
    pub edition: Seq<char>,
    pub dependencies: Seq<Seq<char>>,
    pub repository: Option<Seq<char>>,
    pub website: Option<Seq<char>>,
    pub authors: Seq<Seq<char>>,
    pub maintainers: Seq<Seq<char>>,
    pub targets: Seq<TargetText>,
    pub settings: Seq<(Seq<char>, SettingText)>,
    pub extra_env: Seq<(Seq<char>, Seq<char>)>,
}

pub open spec fn opt_view(o: Option<String>) -> Option<Seq<char>> {
    match o {
        Some(t) => Some(t@),
        None => None,
    }
}

pub open spec fn opt_views(o: Option<Vec<String>>) -> Option<Seq<Seq<char>>> {
    match o {
        Some(v) => Some(text::views(v@)),
        None => None,
    }
}

pub open spec fn project_text(p: Project) -> ProjectText {
    ProjectText {
        name: p.name@,
        version: opt_view(p.version),
        version_files: opt_views(p.version_files),
        description: p.description@,
        license: p.license@,
        edition: p.edition@,
        dependencies: text::views(p.dependencies@),
        repository: opt_view(p.repository),
        website: opt_view(p.website),
        authors: text::views(p.authors@),
        maintainers: text::views(p.maintainers@),
        targets: p.targets@.map_values(|t: Target| target_text(t)),
        settings: settings_text(p.settings@),
        extra_env: env_text(p.extra_env@),
    }
}

/// A project with nothing set but its name and the settings so far.
pub open spec fn bare_project(name: Seq<char>, settings: Seq<(Seq<char>, SettingText)>) -> ProjectText {
    ProjectText {
        name,
        version: None,
        version_files: None,
        description: Seq::empty(),
        license: Seq::empty(),
        edition: "1"@,
        dependencies: Seq::empty(),
        repository: None,
        website: None,
        authors: Seq::empty(),
        maintainers: Seq::empty(),
        targets: Seq::empty(),
        settings,
        extra_env: Seq::empty(),
    }
}

/// The kind of target that a member word declares: a kind word, or
/// `executable.LANGUAGE`.
pub open spec fn member_target_kind(m: Seq<char>) -> Option<TargetKind> {
    match member_kind(m) {
        Some(k) => Some(k),
        None => if text::has_prefix(m, "executable."@) {
            match language_named(text::lower_seq(m.skip(11))) {
                Some(l) => Some(TargetKind::Executable { language: Some(l) }),
                None => None,
            }
        } else {
            None
        },
    }
}

/// The files a project's text refers to, as answered.
pub struct Answers {
    pub root: Seq<char>,
    pub listings: Seq<(String, Result<Vec<DirEntry>, String>)>,
    pub files: Seq<(String, Result<String, String>)>,
    pub licenses: Seq<(String, Result<Option<String>, String>)>,
    pub commands: Seq<(String, Result<String, String>)>,
}

pub open spec fn answers(root: Seq<char>, r: Resolver) -> Answers {
    Answers { root, listings: r.listings@, files: r.files@, licenses: r.licenses@, commands: r.commands@ }
}

/// A string value after `=` at `p`, and where it ends.
pub open spec fn assigned_string(ts: Seq<Token>, p: int, bs: Seq<(Seq<char>, BindingText)>) -> Option<(Seq<char>, int)> {
    if symbol_at(ts, p, '=') && string_value(ts, p + 1, bs) is Some {
        Some((string_value(ts, p + 1, bs)->0, p + 2))
    } else {
        None
    }
}

/// A list of strings after `=` at `p`, and where it ends.
pub open spec fn assigned_strings(ts: Seq<Token>, p: int, bs: Seq<(Seq<char>, BindingText)>) -> Option<(Seq<Seq<char>>, int)> {
    if symbol_at(ts, p, '=') {
        strings_value(ts, p + 1, bs)
    } else {
        None
    }
}

/// A project member named `m` whose rest starts at `p`: the project and
/// bindings after it, and where it ends.
pub open spec fn project_member(
    pt: ProjectText,
    bs: Seq<(Seq<char>, BindingText)>,
    m: Seq<char>,
    ts: Seq<Token>,
    p: int,
    a: Answers,
) -> Result<(ProjectText, Seq<(Seq<char>, BindingText)>, int), Refusal> {
    if m == "version"@ {
        if symbol_at(ts, p, '=') {
            match version_value(ts, p + 1, bs, a.files) {
                Some((v, e)) => Ok((ProjectText { version: Some(v), ..pt }, bs, e)),
                None => Err(Refusal::Other),
            }
        } else {
            Err(Refusal::Other)
        }
    } else if m == "version_files"@ {
        match assigned_strings(ts, p, bs) {
            Some((v, e)) => Ok((ProjectText { version_files: Some(v), ..pt }, bs, e)),
            None => Err(Refusal::Other),
        }
    } else if m == "description"@ {
        match assigned_string(ts, p, bs) {
            Some((v, e)) => Ok((ProjectText { description: v, ..pt }, bs, e)),
            None => Err(Refusal::Other),
        }
    } else if m == "license"@ {
        if symbol_at(ts, p, '=') {
            match license_value(ts, p + 1, bs, a.licenses) {
                Some((v, e)) => Ok((ProjectText { license: v, ..pt }, bs, e)),
                None => Err(Refusal::Other),
            }
        } else {
            Err(Refusal::Other)
        }
    } else if m == "edition"@ {
        match assigned_string(ts, p, bs) {
            Some((v, e)) => Ok((ProjectText { edition: v, ..pt }, bs, e)),
            None => Err(Refusal::Other),
        }
    } else if m == "dependencies"@ {
        match assigned_strings(ts, p, bs) {
            Some((v, e)) => Ok((ProjectText { dependencies: v, ..pt }, bs, e)),
            None => Err(Refusal::Other),
        }
    } else if m == "repository"@ {
        match assigned_string(ts, p, bs) {
            Some((v, e)) => Ok((ProjectText { repository: Some(v), ..pt }, bs, e)),
            None => Err(Refusal::Other),
        }
    } else if m == "website"@ {
        match assigned_string(ts, p, bs) {
            Some((v, e)) => Ok((ProjectText { website: Some(v), ..pt }, bs, e)),
            None => Err(Refusal::Other),
        }
    } else if m == "authors"@ {
        match assigned_strings(ts, p, bs) {
            Some((v, e)) => Ok((ProjectText { authors: v, ..pt }, bs, e)),
            None => Err(Refusal::Other),
        }
    } else if m == "maintainers"@ {
        match assigned_strings(ts, p, bs) {
            Some((v, e)) => Ok((ProjectText { maintainers: v, ..pt }, bs, e)),
            None => Err(Refusal::Other),
        }
    } else if m == "let"@ {
        match declaration(ts, p, bs) {
            Some((n, b, e)) => Ok((pt, bs.push((n, b)), e)),
            None => Err(Refusal::Other),
        }
    } else if m == "extra.env"@ {
        if symbol_at(ts, p, '{') {
            match env_entries(ts, p + 1, bs, pt.extra_env) {
                Some((es, e)) => Ok((ProjectText { extra_env: es, ..pt }, bs, e)),
                None => Err(Refusal::Other),
            }
        } else {
            Err(Refusal::Other)
        }
    } else {
        match member_target_kind(m) {
            Some(k) => match target_value(k, ts, p, bs, a.root, a.listings) {
                Ok((t, e)) => Ok((ProjectText { targets: pt.targets.push(t), ..pt }, bs, e)),
                Err(f) => Err(f),
            },
            None => if text::has_prefix(m, "executable."@) {
                Err(Refusal::Parse("unsupported executable language '"@ + m.skip(11) + "'"@))
            } else {
                Err(Refusal::Parse("unknown project member '"@ + m + "'"@))
            },
        }
    }
}

/// The members of a project from `p` up to and past the closing `}`.
pub open spec fn project_members(
    pt: ProjectText,
    bs: Seq<(Seq<char>, BindingText)>,
    ts: Seq<Token>,
    p: int,
    a: Answers,
) -> Result<(ProjectText, Seq<(Seq<char>, BindingText)>, int), Refusal>
    decreases ts.len() - p,
{
    if p < 0 || p >= ts.len() {
        Err(Refusal::Parse("expected an identifier"@))
    } else if symbol_at(ts, p, '}') {
        Ok((pt, bs, p + 1))
    } else if ts[p] is Word {
        match project_member(pt, bs, ts[p]->Word_0@, ts, p + 1, a) {
            Ok((next, nbs, e)) => if e <= p || e > ts.len() {
                Err(Refusal::Other)
            } else {
                project_members(next, nbs, ts, e, a)
            },
            Err(f) => Err(f),
        }
    } else {
        Err(Refusal::Parse("expected an identifier"@))
    }
}

/// A project declaration at `p` (after `project`): its name, then its
/// members in braces with no bindings at first; it needs a target. Also
/// the bindings it leaves.
pub open spec fn project_value(
    ts: Seq<Token>,
    p: int,
    settings: Seq<(Seq<char>, SettingText)>,
    a: Answers,
) -> Result<(ProjectText, Seq<(Seq<char>, BindingText)>, int), Refusal> {
    if 0 <= p < ts.len() && (ts[p] is Word || ts[p] is Str) && symbol_at(ts, p + 1, '{') {
        match project_members(bare_project(name_text(ts[p]), settings), Seq::empty(), ts, p + 2, a) {
            Ok((pt, bs, e)) => if pt.targets.len() == 0 {
                Err(Refusal::Config("project must define at least one target"@))
            } else {
                Ok((pt, bs, e))
            },
            Err(f) => Err(f),
        }
    } else {
        Err(Refusal::Other)
    }
}

/// The projects of a token list from `p` on, given the settings, the
/// bindings and the projects so far: `project ...` declarations,
/// `set NAME := VALUE` and `NAME := VALUE` settings; at least one project.
pub open spec fn run_items(
    ts: Seq<Token>,
    p: int,
    ss: Seq<(Seq<char>, SettingText)>,
    bs: Seq<(Seq<char>, BindingText)>,
    acc: Seq<ProjectText>,
    a: Answers,
) -> Result<Seq<ProjectText>, Refusal>
    decreases ts.len() - p,
{
    if p < 0 || p > ts.len() {
        Err(Refusal::Other)
    } else if p == ts.len() {
        if acc.len() == 0 {
            Err(Refusal::Parse("expected an identifier"@))
        } else {
            Ok(acc)
        }
    } else if !(ts[p] is Word) {
        Err(Refusal::Parse("expected an identifier"@))
    } else if ts[p]->Word_0@ == "project"@ {
        match project_value(ts, p + 1, ss, a) {
            Ok((pt, nbs, e)) => if e <= p || e > ts.len() {
                Err(Refusal::Other)
            } else {
                run_items(ts, e, ss, nbs, acc.push(pt), a)
            },
            Err(f) => Err(f),
        }
    } else if ts[p]->Word_0@ == "set"@ {
        if p + 1 < ts.len() && ts[p + 1] is Word {
            match setting_value(ts, p + 2, bs, a.commands) {
                Some((v, e)) => if e <= p || e > ts.len() {
                    Err(Refusal::Other)
                } else {
                    run_items(ts, e, set_pair(ss, ts[p + 1]->Word_0@, v), bs, acc, a)
                },
                None => Err(Refusal::Other),
            }
        } else {
            Err(Refusal::Parse("expected an identifier"@))
        }
    } else if word_at(ts, p + 1, ":"@) {
        match setting_value(ts, p + 1, bs, a.commands) {
            Some((v, e)) => if e <= p || e > ts.len() {
                Err(Refusal::Other)
            } else {
                run_items(ts, e, set_pair(ss, ts[p]->Word_0@, v), bs, acc, a)
            },
            None => Err(Refusal::Other),
        }
    } else {
        Err(Refusal::Parse("expected 'project', got '"@ + ts[p]->Word_0@ + "'"@))
    }
}

/// The projects of a whole token list.
pub open spec fn parsed_projects(ts: Seq<Token>, a: Answers) -> Result<Seq<ProjectText>, Refusal> {
    run_items(ts, 0, Seq::empty(), Seq::empty(), Seq::empty(), a)
}

pub open spec fn projects_text(ps: Seq<Project>) -> Seq<ProjectText> {
    ps.map_values(|p: Project| project_text(p))
}

/// The pattern of `glob(PATTERN)` at `p` and where the call ends.
pub open spec fn glob_call(ts: Seq<Token>, p: int, bs: Seq<(Seq<char>, BindingText)>) -> Option<(Seq<char>, int)> {
    if word_at(ts, p, "glob"@) && symbol_at(ts, p + 1, '(') && string_value(ts, p + 2, bs) is Some && symbol_at(ts, p + 3, ')') {
        Some((string_value(ts, p + 2, bs)->0, p + 4))
    } else {
        None
    }
}

/// The files that a glob pattern names: an error for a pattern without
/// `*`, the matching entries of an answered listing (an I/O error when the
/// listing failed), nothing when the directory was not listed.
pub open spec fn glob_value(pattern: Seq<char>, listings: Seq<(String, Result<Vec<DirEntry>, String>)>) -> Option<Result<Seq<Seq<char>>, Seq<char>>> {
    match text::split_once(pattern, '*') {
        None => None,
        Some((prefix, suffix)) => match first_key(listings, prefix, 0) {
            Some(i) => match listings[i].1 {
                Ok(entries) => Some(Ok(matching_paths(prefix, suffix, entries@))),
                Err(m) => Some(Err(m@)),
            },
            None => None,
        },
    }
}

impl<'a> Parser<'a> {
    spec fn same_input(&self, other: &Self) -> bool {
        &&& self.tokens == other.tokens
        &&& self.root == other.root
        &&& self.resolver == other.resolver
    }

    spec fn inv(&self) -> bool {
        &&& self.position <= self.tokens@.len()
        &&& keys(self.settings@).no_duplicates()
        &&& self.missing matches Some(q) ==> unanswered(self.resolver, q)
    }

    fn at_end(&self) -> (r: bool)
        requires
            self.inv(),
        ensures
            r == (self.position >= self.tokens@.len()),
    {
        self.position >= self.tokens.len()
    }

    /// Consumes the symbol `expected` if it comes next.
    fn take_symbol(&mut self, expected: char) -> (r: bool)
        requires
            old(self).inv(),
        ensures
            final(self).inv(),
            final(self).same_input(&*old(self)),
            final(self).bindings == old(self).bindings,
            final(self).settings == old(self).settings,
            r == (old(self).position < old(self).tokens@.len()
                && old(self).tokens@[old(self).position as int] == Token::Symbol(expected)),
            final(self).position == old(self).position + if r { 1int } else { 0int },
    {
        if self.position < self.tokens.len() {
            match &self.tokens[self.position] {
                Token::Symbol(c) => {
                    if *c == expected {
                        self.position = self.position + 1;
                        return true;
                    }
                },
                _ => {},
            }
        }
        false
    }

    /// Consumes the word `expected` if it comes next.
    fn take_word(&mut self, expected: &str) -> (r: bool)
        requires
            old(self).inv(),
        ensures
            final(self).inv(),
            final(self).same_input(&*old(self)),
            final(self).bindings == old(self).bindings,
            final(self).settings == old(self).settings,
            r == (old(self).position < old(self).tokens@.len() && old(self).tokens@[old(
                self,
            ).position as int].view() == Tok::Word(expected@)),
            final(self).position == old(self).position + if r { 1int } else { 0int },
    {
        if self.position < self.tokens.len() {
            match &self.tokens[self.position] {
                Token::Word(w) => {
                    if text::same(w.as_str(), expected) {
                        self.position = self.position + 1;
                        return true;
                    }
                },
                _ => {},
            }
        }
        false
    }

    fn expect_symbol(&mut self, expected: char) -> (r: Result<(), Error>)
        requires
            old(self).inv(),
        ensures
            final(self).inv(),
            final(self).same_input(&*old(self)),
            final(self).bindings == old(self).bindings,
            final(self).settings == old(self).settings,
            r is Ok == (old(self).position < old(self).tokens@.len() && old(self).tokens@[old(
                self,
            ).position as int] == Token::Symbol(expected)),
            r is Ok ==> final(self).position == old(self).position + 1,
            r matches Err(e) ==> e matches Error::Parse(m) && m@ == seq!['e', 'x', 'p', 'e', 'c', 't', 'e', 'd', ' ', '\'', expected, '\''],
    {
        if self.take_symbol(expected) {
            Ok(())
        } else {
            let mut m = text::owned("expected '");
            text::push_char(&mut m, expected);
            text::push_char(&mut m, '\'');
            proof {
                reveal_strlit("expected '");
            }
            assert(m@ =~= seq!['e', 'x', 'p', 'e', 'c', 't', 'e', 'd', ' ', '\'', expected, '\'']);
            Err(Error::Parse(m))
        }
    }

    /// The next token, which must be a word.
    fn word(&mut self) -> (r: Result<String, Error>)
        requires
            old(self).inv(),
        ensures
            final(self).inv(),
            final(self).same_input(&*old(self)),
            final(self).bindings == old(self).bindings,
            final(self).settings == old(self).settings,
            r matches Ok(w) ==> old(self).position < old(self).tokens@.len() && old(self).tokens@[old(
                self,
            ).position as int] == Token::Word(w) && final(self).position == old(self).position + 1,
            r is Err ==> !(old(self).position < old(self).tokens@.len() && old(self).tokens@[old(
                self,
            ).position as int] is Word),
            r matches Err(e) ==> e matches Error::Parse(m) && m@ == "expected an identifier"@,
            final(self).position >= old(self).position,
    {
        if self.position < self.tokens.len() {
            match &self.tokens[self.position] {
                Token::Word(w) => {
                    let w = w.clone();
                    self.position = self.position + 1;
                    return Ok(w);
                },
                _ => {},
            }
        }
        Err(parse_error("expected an identifier"))
    }

    /// The next token, which must be a quoted string or a word.
    fn string_or_word(&mut self) -> (r: Result<String, Error>)
        requires
            old(self).inv(),
        ensures
            final(self).inv(),
            final(self).same_input(&*old(self)),
            final(self).bindings == old(self).bindings,
            final(self).settings == old(self).settings,
            r matches Ok(w) ==> old(self).position < old(self).tokens@.len() && (old(self).tokens@[old(
                self,
            ).position as int] == Token::Word(w) || old(self).tokens@[old(self).position as int]
                == Token::Str(w)) && final(self).position == old(self).position + 1,
            r is Err ==> !(old(self).position < old(self).tokens@.len() && (old(self).tokens@[old(
                self,
            ).position as int] is Word || old(self).tokens@[old(self).position as int] is Str)),
            r matches Err(e) ==> e matches Error::Parse(m) && m@ == "expected a string or identifier"@,
            final(self).position >= old(self).position,
    {
        if self.position < self.tokens.len() {
            match &self.tokens[self.position] {
                Token::Word(w) => {
                    let w = w.clone();
                    self.position = self.position + 1;
                    return Ok(w);
                },
                Token::Str(w) => {
                    let w = w.clone();
                    self.position = self.position + 1;
                    return Ok(w);
                },
                _ => {},
            }
        }
        Err(parse_error("expected a string or identifier"))
    }
}

impl<'a> Parser<'a> {
    /// The value of a binding.
    fn binding(&self, name: &str) -> (r: Option<Binding>)
        ensures
            match binding_at(binds_text(self.bindings@), name@) {
                Some(b) => r matches Some(c) && binding_text(c) == b,
                None => r is None,
            },
    {
        proof {
            lemma_text_key(self.bindings@, name@, 0);
        }
        match lookup(&self.bindings, name) {
            Some(i) => {
                let c = match &self.bindings[i].1 {
                    Binding::Str(v) => Binding::Str(v.clone()),
                    Binding::Bool(b) => Binding::Bool(*b),
                    Binding::List(vs) => {
                        let copied = copy_strings(vs);
                        assert(text::views(copied@) == text::views(vs@));
                        Binding::List(copied)
                    },
                };
                proof {
                    lemma_text_key(self.bindings@, name@, 0);
                }
                assert(binding_text(c) == binding_text(self.bindings@[i as int].1));
                Some(c)
            },
            None => None,
        }
    }

    /// A string value: a quoted string, a word, or a word that names a
    /// string binding.
    fn value_string(&mut self) -> (r: Result<String, Error>)
        requires
            old(self).inv(),
        ensures
            final(self).inv(),
            final(self).same_input(&*old(self)),
            final(self).bindings == old(self).bindings,
            final(self).settings == old(self).settings,
            r is Ok ==> final(self).position == old(self).position + 1,
            r matches Err(e) ==> e matches Error::Parse(m) && m@ == "expected a string or identifier"@,
            match string_value(old(self).tokens@, old(self).position as int, binds_text(old(self).bindings@)) {
                Some(v) => r matches Ok(x) && x@ == v,
                None => r is Err,
            },
    {
        if self.position < self.tokens.len() {
            match &self.tokens[self.position] {
                Token::Str(w) => {
                    let w = w.clone();
                    self.position = self.position + 1;
                    return Ok(w);
                },
                Token::Word(w) => {
                    let w = w.clone();
                    self.position = self.position + 1;
                    match self.binding(w.as_str()) {
                        Some(Binding::Str(v)) => return Ok(v),
                        _ => return Ok(w),
                    }
                },
                _ => {},
            }
        }
        Err(parse_error("expected a string or identifier"))
    }

    /// A list of strings: `[a, b, ...]` (commas optional) or the name of a
    /// list or string binding.
    fn strings(&mut self) -> (r: Result<Vec<String>, Error>)
        requires
            old(self).inv(),
        ensures
            final(self).inv(),
            final(self).same_input(&*old(self)),
            final(self).bindings == old(self).bindings,
            final(self).settings == old(self).settings,
            r is Ok ==> final(self).position > old(self).position,
            match strings_value(old(self).tokens@, old(self).position as int, binds_text(old(self).bindings@)) {
                Some((vs, end)) => r matches Ok(x) && text::views(x@) == vs && final(self).position == end,
                None => r is Err,
            },
    {
        if self.position < self.tokens.len() {
            match &self.tokens[self.position] {
                Token::Word(w) => {
                    let w = w.clone();
                    self.position = self.position + 1;
                    return match self.binding(w.as_str()) {
                        Some(Binding::List(values)) => Ok(values),
                        Some(Binding::Str(value)) => {
                            let mut values = Vec::new();
                            values.push(value);
                            assert(text::views(values@) =~= seq![values@[0]@]);
                            Ok(values)
                        },
                        Some(Binding::Bool(_)) => Err(quoted_error("binding '", w.as_str(), "' is not a list")),
                        None => Err(quoted_error("unknown binding '", w.as_str(), "'")),
                    };
                },
                _ => {},
            }
        }
        self.expect_symbol('[')?;
        let mut values: Vec<String> = Vec::new();
        let ghost whole = strings_value(old(self).tokens@, old(self).position as int, binds_text(old(self).bindings@));
        assert(text::views(values@) =~= Seq::<Seq<char>>::empty());
        while !self.take_symbol(']')
            invariant
                self.inv(),
                self.same_input(&*old(self)),
                self.bindings == old(self).bindings,
                self.settings == old(self).settings,
                self.position > old(self).position,
                whole == strings_value(old(self).tokens@, old(self).position as int, binds_text(old(self).bindings@)),
                whole == match list_items(self.tokens@, self.position as int, binds_text(self.bindings@)) {
                    Some((rest, end)) => Some((text::views(values@) + rest, end)),
                    None => None::<(Seq<Seq<char>>, int)>,
                },
            decreases self.tokens@.len() - self.position,
        {
            let ghost before = text::views(values@);
            let v = self.value_string()?;
            values.push(v);
            assert(text::views(values@) =~= before.push(v@));
            let _ = self.take_symbol(',');
            proof {
                match list_items(self.tokens@, self.position as int, binds_text(self.bindings@)) {
                    Some((rest, end)) => {
                        assert(before + (seq![v@] + rest) =~= text::views(values@) + rest);
                    },
                    None => {},
                }
            }
        }
        assert(text::views(values@) + Seq::<Seq<char>>::empty() =~= text::views(values@));
        Ok(values)
    }

    /// A list of paths joined to the project root: a list of strings or
    /// `glob("dir/prefix*suffix")`.
    fn paths(&mut self) -> (r: Result<Vec<String>, Error>)
        requires
            old(self).inv(),
        ensures
            final(self).inv(),
            final(self).same_input(&*old(self)),
            final(self).bindings == old(self).bindings,
            final(self).settings == old(self).settings,
            r is Ok ==> final(self).position > old(self).position,
            !word_at(old(self).tokens@, old(self).position as int, "glob"@) ==> match strings_value(old(self).tokens@, old(self).position as int, binds_text(old(self).bindings@)) {
                Some((vs, end)) => r matches Ok(x) && text::views(x@) == vs.map_values(|v: Seq<char>| join_path(old(self).root@, v))
                    && final(self).position == end,
                None => r is Err,
            },
            match paths_value(old(self).tokens@, old(self).position as int, binds_text(old(self).bindings@), old(self).root@, old(self).resolver.listings@) {
                Some((vs, end)) => r matches Ok(x) && text::views(x@) == vs && final(self).position == end,
                None => r is Err,
            },
    {
        let values = if self.take_word("glob") {
            self.expect_symbol('(')?;
            let pattern = self.value_string()?;
            self.expect_symbol(')')?;
            let found = self.glob(pattern.as_str())?;
            proof {
                let ps = glob_value(pattern@, self.resolver.listings@).unwrap()->Ok_0;
                lemma_in_order(found@, ps);
            }
            found
        } else {
            self.strings()?
        };
        let mut joined: Vec<String> = Vec::new();
        let mut i: usize = 0;
        while i < values.len()
            invariant
                i <= values@.len(),
                joined@.len() == i,
                forall|j: int| 0 <= j < i ==> (#[trigger] joined@[j])@ == join_path(self.root@, values@[j]@),
                text::views(joined@) == text::views(values@).take(i as int).map_values(|v: Seq<char>| join_path(self.root@, v)),
            decreases values@.len() - i,
        {
            let ghost before = joined@;
            joined.push(join_path_exec(self.root.as_str(), values[i].as_str()));
            assert(text::views(joined@) =~= text::views(before).push(join_path(self.root@, values@[i as int]@)));
            assert(text::views(values@).take(i + 1).map_values(|v: Seq<char>| join_path(self.root@, v)) =~= text::views(values@).take(i as int).map_values(|v: Seq<char>| join_path(self.root@, v)).push(join_path(self.root@, values@[i as int]@)));
            i = i + 1;
        }
        assert(text::views(values@).take(i as int) =~= text::views(values@));
        Ok(joined)
    }

    /// The files that a glob pattern names, relative to the root.
    fn glob(&mut self, pattern: &str) -> (r: Result<Vec<String>, Error>)
        requires
            old(self).inv(),
        ensures
            final(self).inv(),
            final(self).same_input(&*old(self)),
            final(self).position == old(self).position,
            final(self).bindings == old(self).bindings,
            final(self).settings == old(self).settings,
            match glob_value(pattern@, old(self).resolver.listings@) {
                Some(Ok(ps)) => r matches Ok(x) && text::sorted_texts(x@) && text::views(x@).to_multiset() == ps.to_multiset(),
                Some(Err(m)) => r matches Err(Error::Io(x)) && x@ == m,
                None => r is Err,
            },
            (text::split_once(pattern@, '*') matches Some((prefix, _)) && first_key(old(self).resolver.listings@, prefix, 0) is None)
                ==> (final(self).missing matches Some(Request::List(d)) && d@ == text::split_once(pattern@, '*').unwrap().0),
    {
        let cs = text::chars_of(pattern);
        let (prefix, suffix) = match text::split_once_char(&cs, '*') {
            Some(parts) => parts,
            None => return Err(parse_error("glob requires a '*' pattern")),
        };
        let directory = text::string_of(&prefix);
        match lookup(&self.resolver.listings, directory.as_str()) {
            Some(i) => match &self.resolver.listings[i].1 {
                Ok(entries) => Ok(expand_glob(&prefix, &suffix, entries)),
                Err(message) => Err(Error::Io(message.clone())),
            },
            None => {
                self.missing = Some(Request::List(directory.clone()));
                Err(quoted_error("directory '", directory.as_str(), "' was not listed"))
            },
        }
    }

    fn boolean(&mut self) -> (r: Result<bool, Error>)
        requires
            old(self).inv(),
        ensures
            final(self).inv(),
            final(self).same_input(&*old(self)),
            final(self).bindings == old(self).bindings,
            final(self).settings == old(self).settings,
            r is Ok ==> final(self).position == old(self).position + 1,
            match boolean_value(old(self).tokens@, old(self).position as int, binds_text(old(self).bindings@)) {
                Some(b) => r == Ok::<bool, Error>(b),
                None => r is Err,
            },
    {
        proof {
            reveal_strlit("true");
            reveal_strlit("false");
        }
        let value = self.word()?;
        if text::same(value.as_str(), "true") {
            Ok(true)
        } else if text::same(value.as_str(), "false") {
            Ok(false)
        } else {
            match self.binding(value.as_str()) {
                Some(Binding::Bool(b)) => Ok(b),
                _ => Err(quoted_error("expected boolean, got '", value.as_str(), "'")),
            }
        }
    }

    /// `file("path")`: the trimmed contents of a project-relative file.
    fn string_or_file(&mut self) -> (r: Result<String, Error>)
        requires
            old(self).inv(),
        ensures
            final(self).inv(),
            final(self).same_input(&*old(self)),
            final(self).bindings == old(self).bindings,
            final(self).settings == old(self).settings,
            r is Ok ==> final(self).position > old(self).position,
            match version_value(old(self).tokens@, old(self).position as int, binds_text(old(self).bindings@), old(self).resolver.files@) {
                Some((v, end)) => r matches Ok(x) && x@ == v && final(self).position == end,
                None => r is Err,
            },
    {
        proof {
            reveal_strlit("file");
        }
        if self.take_word("file") {
            self.expect_symbol('(')?;
            let relative = self.value_string()?;
            self.expect_symbol(')')?;
            let path = join_path_exec(self.root.as_str(), relative.as_str());
            return match lookup(&self.resolver.files, relative.as_str()) {
                Some(i) => match &self.resolver.files[i].1 {
                    Ok(contents) => {
                        let value = text::trim_str(contents.as_str());
                        if value.as_str().unicode_len() == 0 {
                            Err(quoted_config("version file '", path.as_str(), "' is empty"))
                        } else {
                            Ok(value)
                        }
                    },
                    Err(message) => {
                        let a = text::concat("could not read version file '", path.as_str());
                        let b = text::concat(a.as_str(), "': ");
                        Err(Error::Config(text::concat(b.as_str(), message.as_str())))
                    },
                },
                None => {
                    self.missing = Some(Request::File(relative.clone()));
                    Err(quoted_config("could not read version file '", path.as_str(), "'"))
                },
            };
        }
        self.value_string()
    }

    /// `license = "SPDX"` or `license = file("path")`, whose text must be a
    /// recognized license.
    fn license(&mut self) -> (r: Result<String, Error>)
        requires
            old(self).inv(),
        ensures
            final(self).inv(),
            final(self).same_input(&*old(self)),
            final(self).bindings == old(self).bindings,
            final(self).settings == old(self).settings,
            r is Ok ==> final(self).position > old(self).position,
            match license_value(old(self).tokens@, old(self).position as int, binds_text(old(self).bindings@), old(self).resolver.licenses@) {
                Some((v, end)) => r matches Ok(x) && x@ == v && final(self).position == end,
                None => r is Err,
            },
    {
        proof {
            reveal_strlit("file");
        }
        if self.take_word("file") {
            self.expect_symbol('(')?;
            let relative = self.value_string()?;
            self.expect_symbol(')')?;
            let path = join_path_exec(self.root.as_str(), relative.as_str());
            return match lookup(&self.resolver.licenses, relative.as_str()) {
                Some(i) => match &self.resolver.licenses[i].1 {
                    Ok(Some(identifier)) => Ok(identifier.clone()),
                    Ok(None) => Err(quoted_config("could not identify a recognized SPDX license in '", path.as_str(), "'")),
                    Err(message) => {
                        let a = text::concat("could not read license file '", path.as_str());
                        let b = text::concat(a.as_str(), "': ");
                        Err(Error::Config(text::concat(b.as_str(), message.as_str())))
                    },
                },
                None => {
                    self.missing = Some(Request::License(relative.clone()));
                    Err(quoted_config("could not read license file '", path.as_str(), "'"))
                },
            };
        }
        self.value_string()
    }
}

/// The target kinds that project members name, other than `executable.<language>`.
pub open spec fn member_kind(w: Seq<char>) -> Option<TargetKind> {
    if w == "executable"@ {
        Some(TargetKind::Executable { language: None })
    } else if w == "cxx_executable"@ {
        Some(TargetKind::Executable { language: Some(TargetLanguage::Cpp) })
    } else if w == "rust_executable"@ {
        Some(TargetKind::Executable { language: Some(TargetLanguage::Rust) })
    } else if w == "d_executable"@ {
        Some(TargetKind::Executable { language: Some(TargetLanguage::D) })
    } else if w == "static_library"@ || w == "static"@ {
        Some(TargetKind::StaticLibrary)
    } else if w == "shared_library"@ || w == "shared"@ {
        Some(TargetKind::SharedLibrary)
    } else if w == "rust_library"@ {
        Some(TargetKind::RustLibrary)
    } else {
        None
    }
}

fn member_kind_exec(w: &str) -> (r: Option<TargetKind>)
    ensures
        r == member_kind(w@),
{
    if text::same(w, "executable") {
        Some(TargetKind::Executable { language: None })
    } else if text::same(w, "cxx_executable") {
        Some(TargetKind::Executable { language: Some(TargetLanguage::Cpp) })
    } else if text::same(w, "rust_executable") {
        Some(TargetKind::Executable { language: Some(TargetLanguage::Rust) })
    } else if text::same(w, "d_executable") {
        Some(TargetKind::Executable { language: Some(TargetLanguage::D) })
    } else if text::same(w, "static_library") || text::same(w, "static") {
        Some(TargetKind::StaticLibrary)
    } else if text::same(w, "shared_library") || text::same(w, "shared") {
        Some(TargetKind::SharedLibrary)
    } else if text::same(w, "rust_library") {
        Some(TargetKind::RustLibrary)
    } else {
        None
    }
}

fn is_sourceless(k: TargetKind) -> (r: bool)
    ensures
        r == sourceless_kind(k),
{
    match k {
        TargetKind::Executable { language: Some(TargetLanguage::Gradle) } => true,
        _ => false,
    }
}

impl<'a> Parser<'a> {
    /// `KIND "name" { property = value ... }`.
    fn target(&mut self, kind: TargetKind) -> (r: Result<Target, Error>)
        requires
            old(self).inv(),
        ensures
            final(self).inv(),
            final(self).same_input(&*old(self)),
            final(self).bindings == old(self).bindings,
            final(self).settings == old(self).settings,
            r is Ok ==> final(self).position > old(self).position,
            r matches Ok(t) ==> t.kind == kind && (t.sources@.len() > 0 || sourceless_kind(kind)),
            match target_value(kind, old(self).tokens@, old(self).position as int, binds_text(old(self).bindings@), old(self).root@, old(self).resolver.listings@) {
                Ok((t, e)) => r matches Ok(x) && target_text(x) == t && final(self).position == e,
                Err(f) => r matches Err(x) && refused(x, f),
            },
    {
        proof {
            reveal_strlit("sources");
            reveal_strlit("dependencies");
            reveal_strlit("depends");
            reveal_strlit("include_dirs");
            reveal_strlit("includes");
            reveal_strlit("defines");
            reveal_strlit("flags");
            reveal_strlit("linker_flags");
            reveal_strlit("gradle_tasks");
            reveal_strlit("tasks");
            reveal_strlit("gradle_options");
            reveal_strlit("options");
            reveal_strlit("gradle_run_tasks");
            reveal_strlit("run_tasks");
            reveal_strlit("gradle_run_options");
            reveal_strlit("run_options");
            reveal_strlit("install");
        }
        let ghost whole = target_value(kind, old(self).tokens@, old(self).position as int, binds_text(old(self).bindings@), old(self).root@, old(self).resolver.listings@);
        let name = self.string_or_word()?;
        self.expect_symbol('{')?;
        let mut target = Target {
            name,
            kind,
            sources: Vec::new(),
            dependencies: Vec::new(),
            include_dirs: Vec::new(),
            defines: Vec::new(),
            flags: Vec::new(),
            linker_flags: Vec::new(),
            gradle_tasks: Vec::new(),
            gradle_options: Vec::new(),
            gradle_run_tasks: Vec::new(),
            gradle_run_options: Vec::new(),
            install: false,
        };
        assert(text::views(target.sources@) =~= Seq::<Seq<char>>::empty());
        assert(target_text(target) =~= bare_target(target.name@, kind));
        while !self.take_symbol('}')
            invariant
                self.inv(),
                self.same_input(&*old(self)),
                self.bindings == old(self).bindings,
                self.settings == old(self).settings,
                self.position > old(self).position,
                target.kind == kind,
                whole == target_value(kind, old(self).tokens@, old(self).position as int, binds_text(old(self).bindings@), old(self).root@, old(self).resolver.listings@),
                whole == match target_properties(target_text(target), self.tokens@, self.position as int, binds_text(self.bindings@), self.root@, self.resolver.listings@) {
                    Some((t, e)) => if t.sources.len() == 0 && !sourceless_kind(kind) {
                        Err(Refusal::Config("target '"@ + t.name + "' has no sources"@))
                    } else {
                        Ok((t, e))
                    },
                    None => Err(Refusal::Other),
                },
            decreases self.tokens@.len() - self.position,
        {
            let field = self.word()?;
            self.expect_symbol('=')?;
            let f = field.as_str();
            if text::same(f, "sources") {
                target.sources = self.paths()?;
            } else if text::same(f, "dependencies") || text::same(f, "depends") {
                target.dependencies = self.strings()?;
            } else if text::same(f, "include_dirs") || text::same(f, "includes") {
                target.include_dirs = self.paths()?;
            } else if text::same(f, "defines") {
                target.defines = self.strings()?;
            } else if text::same(f, "flags") {
                target.flags = self.strings()?;
            } else if text::same(f, "linker_flags") {
                target.linker_flags = self.strings()?;
            } else if text::same(f, "gradle_tasks") || text::same(f, "tasks") {
                target.gradle_tasks = self.strings()?;
            } else if text::same(f, "gradle_options") || text::same(f, "options") {
                target.gradle_options = self.strings()?;
            } else if text::same(f, "gradle_run_tasks") || text::same(f, "run_tasks") {
                target.gradle_run_tasks = self.strings()?;
            } else if text::same(f, "gradle_run_options") || text::same(f, "run_options") {
                target.gradle_run_options = self.strings()?;
            } else if text::same(f, "install") {
                target.install = self.boolean()?;
            } else {
                return Err(quoted_error("unknown target property '", f, "'"));
            }
        }
        if target.sources.len() == 0 && !is_sourceless(kind) {
            return Err(quoted_config("target '", target.name.as_str(), "' has no sources"));
        }
        Ok(target)
    }

    /// `let NAME = VALUE`: a string, `true`/`false`, a list, or the value
    /// of an earlier binding.
    fn binding_declaration(&mut self) -> (r: Result<(), Error>)
        requires
            old(self).inv(),
        ensures
            final(self).inv(),
            final(self).same_input(&*old(self)),
            final(self).settings == old(self).settings,
            r is Ok ==> final(self).position > old(self).position,
            match declaration(old(self).tokens@, old(self).position as int, binds_text(old(self).bindings@)) {
                Some((name, value, e)) => r is Ok && final(self).position == e && final(self).bindings@.len()
                    == old(self).bindings@.len() + 1 && final(self).bindings@.drop_last() == old(self).bindings@
                    && final(self).bindings@.last().0@ == name && binding_text(final(self).bindings@.last().1) == value,
                None => r is Err,
            },
    {
        proof {
            reveal_strlit("true");
            reveal_strlit("false");
        }
        let name = self.word()?;
        self.expect_symbol('=')?;
        proof {
            lemma_text_key(self.bindings@, name@, 0);
        }
        if lookup(&self.bindings, name.as_str()).is_some() {
            return Err(quoted_error("binding '", name.as_str(), "' is declared more than once"));
        }
        let mut value = Binding::Str(String::new());
        let mut done = false;
        if self.position < self.tokens.len() {
            match &self.tokens[self.position] {
                Token::Word(w) => {
                    let w = w.clone();
                    self.position = self.position + 1;
                    value = if text::same(w.as_str(), "true") {
                        Binding::Bool(true)
                    } else if text::same(w.as_str(), "false") {
                        Binding::Bool(false)
                    } else {
                        match self.binding(w.as_str()) {
                            Some(b) => b,
                            None => Binding::Str(w),
                        }
                    };
                    done = true;
                },
                Token::Str(w) => {
                    value = Binding::Str(w.clone());
                    self.position = self.position + 1;
                    done = true;
                },
                _ => {},
            }
        }
        if !done {
            value = Binding::List(self.strings()?);
        }
        let ghost before = self.bindings@;
        self.bindings.push((name, value));
        assert(self.bindings@.drop_last() =~= before);
        Ok(())
    }

    /// `extra.env { KEY = VALUE ... }`.
    fn environment(&mut self, env: &mut Vec<(String, String)>) -> (r: Result<(), Error>)
        requires
            old(self).inv(),
            keys(old(env)@).no_duplicates(),
        ensures
            final(self).inv(),
            final(self).same_input(&*old(self)),
            final(self).bindings == old(self).bindings,
            final(self).settings == old(self).settings,
            keys(final(env)@).no_duplicates(),
            r is Ok ==> final(self).position > old(self).position,
            match (if symbol_at(old(self).tokens@, old(self).position as int, '{') {
                env_entries(old(self).tokens@, old(self).position + 1, binds_text(old(self).bindings@), env_text(old(env)@))
            } else {
                None
            }) {
                Some((es, e)) => r is Ok && env_text(final(env)@) == es && final(self).position == e,
                None => r is Err,
            },
    {
        let ghost whole = if symbol_at(old(self).tokens@, old(self).position as int, '{') {
            env_entries(old(self).tokens@, old(self).position + 1, binds_text(old(self).bindings@), env_text(old(env)@))
        } else {
            None
        };
        self.expect_symbol('{')?;
        while !self.take_symbol('}')
            invariant
                self.inv(),
                self.same_input(&*old(self)),
                self.bindings == old(self).bindings,
                self.settings == old(self).settings,
                self.position > old(self).position,
                keys(env@).no_duplicates(),
                whole == (if symbol_at(old(self).tokens@, old(self).position as int, '{') {
                    env_entries(old(self).tokens@, old(self).position + 1, binds_text(old(self).bindings@), env_text(old(env)@))
                } else {
                    None
                }),
                whole == env_entries(self.tokens@, self.position as int, binds_text(self.bindings@), env_text(env@)),
            decreases self.tokens@.len() - self.position,
        {
            proof {
                let p = self.position as int;
                if !(p < self.tokens@.len() && (self.tokens@[p] is Word || self.tokens@[p] is Str)) {
                    assert(env_entries(self.tokens@, p, binds_text(self.bindings@), env_text(env@)) is None);
                }
            }
            let key = self.string_or_word()?;
            self.expect_symbol('=')?;
            let value = self.value_string()?;
            let _ = self.take_symbol(',');
            proof {
                lemma_pair_index(env@, key@, 0);
                lemma_first_key(env@, key@, 0);
            }
            let ghost before = env@;
            upsert(env, key, value);
            proof {
                match first_key(before, key@, 0) {
                    Some(i) => {
                        assert(env_text(env@) =~= env_text(before).update(i, (key@, value@)));
                    },
                    None => {
                        assert(env_text(env@) =~= env_text(before).push((key@, value@)));
                    },
                }
            }
        }
        Ok(())
    }

    /// `project NAME { ... }`, after the word `project`.
    #[verifier::rlimit(100)]
    fn project(&mut self) -> (r: Result<Project, Error>)
        requires
            old(self).inv(),
        ensures
            final(self).inv(),
            final(self).same_input(&*old(self)),
            final(self).settings == old(self).settings,
            r is Ok ==> final(self).position > old(self).position,
            r matches Ok(p) ==> well_formed_project(p) && keys(p.settings@) == keys(old(self).settings@),
            match project_value(old(self).tokens@, old(self).position as int, settings_text(old(self).settings@), answers(old(self).root@, *old(self).resolver)) {
                Ok((pt, bs, e)) => r matches Ok(x) && project_text(x) == pt && binds_text(final(self).bindings@) == bs
                    && final(self).position == e,
                Err(f) => r matches Err(x) && refused(x, f),
            },
    {
        let ghost a = answers(self.root@, *self.resolver);
        let name = self.string_or_word()?;
        self.expect_symbol('{')?;
        self.bindings = Vec::new();
        let mut project = Project {
            name,
            version: None,
            version_files: None,
            description: String::new(),
            license: String::new(),
            edition: text::owned("1"),
            dependencies: Vec::new(),
            repository: None,
            website: None,
            authors: Vec::new(),
            maintainers: Vec::new(),
            targets: Vec::new(),
            settings: copy_settings(&self.settings),
            extra_env: Vec::new(),
        };
        assert(keys(project.extra_env@) =~= Seq::<Seq<char>>::empty());
        proof {
            assert(name_text(old(self).tokens@[old(self).position as int]) == project.name@);
            assert(text::views(project.dependencies@) =~= Seq::<Seq<char>>::empty());
            assert(text::views(project.authors@) =~= Seq::<Seq<char>>::empty());
            assert(text::views(project.maintainers@) =~= Seq::<Seq<char>>::empty());
            assert(project.targets@.map_values(|t: Target| target_text(t)) =~= Seq::<TargetText>::empty());
            assert(env_text(project.extra_env@) =~= Seq::<(Seq<char>, Seq<char>)>::empty());
            assert(binds_text(self.bindings@) =~= Seq::<(Seq<char>, BindingText)>::empty());
            assert(project_text(project) == bare_project(project.name@, settings_text(old(self).settings@)));
        }
        while !self.take_symbol('}')
            invariant
                self.inv(),
                self.same_input(&*old(self)),
                self.settings == old(self).settings,
                self.position > old(self).position,
                a == answers(old(self).root@, *old(self).resolver),
                keys(project.settings@) == keys(old(self).settings@),
                keys(project.extra_env@).no_duplicates(),
                keys(project.settings@).no_duplicates(),
                forall|i: int|
                    0 <= i < project.targets@.len() ==> (#[trigger] project.targets@[i]).sources@.len()
                        > 0 || sourceless_kind(project.targets@[i].kind),
                0 <= old(self).position && old(self).position + 1 < old(self).tokens@.len(),
                old(self).tokens@[old(self).position as int] is Word || old(self).tokens@[old(self).position as int] is Str,
                symbol_at(old(self).tokens@, old(self).position + 1, '{'),
                project_members(project_text(project), binds_text(self.bindings@), self.tokens@, self.position as int, a)
                    == project_members(bare_project(name_text(old(self).tokens@[old(self).position as int]), settings_text(old(self).settings@)), Seq::empty(), old(self).tokens@, old(self).position + 2, a),
            decreases self.tokens@.len() - self.position,
        {
            let ghost pt = project_text(project);
            let ghost bs = binds_text(self.bindings@);
            let ghost ts = self.tokens@;
            let ghost p = self.position as int;
            let member = self.word()?;
            let m = member.as_str();
            proof {
                assert(project_members(pt, bs, ts, p, a) == match project_member(pt, bs, m@, ts, p + 1, a) {
                    Ok((next, nbs, e)) => if e <= p || e > ts.len() {
                        Err(Refusal::Other)
                    } else {
                        project_members(next, nbs, ts, e, a)
                    },
                    Err(f) => Err(f),
                });
            }
            if text::same(m, "version") {
                self.expect_symbol('=')?;
                project.version = Some(self.string_or_file()?);
                assert(project_text(project) == ProjectText { version: Some(project.version->0@), ..pt });
            } else if text::same(m, "version_files") {
                self.expect_symbol('=')?;
                project.version_files = Some(self.strings()?);
                assert(project_text(project) == ProjectText { version_files: Some(text::views(project.version_files->0@)), ..pt });
            } else if text::same(m, "description") {
                self.expect_symbol('=')?;
                project.description = self.value_string()?;
                assert(project_text(project) == ProjectText { description: project.description@, ..pt });
            } else if text::same(m, "license") {
                self.expect_symbol('=')?;
                project.license = self.license()?;
                assert(project_text(project) == ProjectText { license: project.license@, ..pt });
            } else if text::same(m, "edition") {
                self.expect_symbol('=')?;
                project.edition = self.value_string()?;
                assert(project_text(project) == ProjectText { edition: project.edition@, ..pt });
            } else if text::same(m, "dependencies") {
                self.expect_symbol('=')?;
                project.dependencies = self.strings()?;
                assert(project_text(project) == ProjectText { dependencies: text::views(project.dependencies@), ..pt });
            } else if text::same(m, "repository") {
                self.expect_symbol('=')?;
                project.repository = Some(self.value_string()?);
                assert(project_text(project) == ProjectText { repository: Some(project.repository->0@), ..pt });
            } else if text::same(m, "website") {
                self.expect_symbol('=')?;
                project.website = Some(self.value_string()?);
                assert(project_text(project) == ProjectText { website: Some(project.website->0@), ..pt });
            } else if text::same(m, "authors") {
                self.expect_symbol('=')?;
                project.authors = self.strings()?;
                assert(project_text(project) == ProjectText { authors: text::views(project.authors@), ..pt });
            } else if text::same(m, "maintainers") {
                self.expect_symbol('=')?;
                project.maintainers = self.strings()?;
                assert(project_text(project) == ProjectText { maintainers: text::views(project.maintainers@), ..pt });
            } else if text::same(m, "let") {
                self.binding_declaration()?;
                proof {
                    let d = declaration(ts, p + 1, bs)->Some_0;
                    assert(binds_text(self.bindings@) =~= bs.push((d.0, d.1)));
                }
            } else if text::same(m, "extra.env") {
                self.environment(&mut project.extra_env)?;
                assert(project_text(project) == ProjectText { extra_env: env_text(project.extra_env@), ..pt });
            } else {
                let kind = match member_kind_exec(m) {
                    Some(k) => k,
                    None => {
                        let cs = text::chars_of(m);
                        let qualified = text::starts_with(&cs, &text::chars_of("executable."));
                        if !qualified {
                            return Err(quoted_error("unknown project member '", m, "'"));
                        }
                        proof {
                            reveal_strlit("executable.");
                        }
                        let rest = text::slice_chars(&cs, 11, cs.len());
                        let language_name = text::string_of(&rest);
                        assert(language_name@ == m@.skip(11));
                        match TargetLanguage::parse(language_name.as_str()) {
                            Some(language) => TargetKind::Executable { language: Some(language) },
                            None => {
                                return Err(
                                    quoted_error(
                                        "unsupported executable language '",
                                        language_name.as_str(),
                                        "'",
                                    ),
                                );
                            },
                        }
                    },
                };
                assert(member_target_kind(m@) == Some(kind));
                let target = self.target(kind)?;
                let ghost before = project.targets@;
                project.targets.push(target);
                proof {
                    assert(project.targets@.map_values(|t: Target| target_text(t)) =~= before.map_values(
                        |t: Target| target_text(t),
                    ).push(target_text(target)));
                }
                assert(project_text(project) == ProjectText { targets: pt.targets.push(target_text(target)), ..pt });
            }
        }
        if project.targets.len() == 0 {
            return Err(Error::Config(text::owned("project must define at least one target")));
        }
        Ok(project)
    }

    /// `set NAME := VALUE` or `NAME := VALUE`, after `set` and the name.
    fn setting(&mut self, name: String) -> (r: Result<(), Error>)
        requires
            old(self).inv(),
        ensures
            final(self).inv(),
            final(self).same_input(&*old(self)),
            r is Ok ==> final(self).position > old(self).position,
            final(self).bindings == old(self).bindings,
            match setting_value(old(self).tokens@, old(self).position as int, binds_text(old(self).bindings@), old(self).resolver.commands@) {
                Some((v, e)) => r is Ok && final(self).position == e && settings_text(final(self).settings@)
                    == set_pair(settings_text(old(self).settings@), name@, v),
                None => r is Err,
            },
    {
        proof {
            reveal_strlit(":");
        }
        let assign = self.word()?;
        if !text::same(assign.as_str(), ":") {
            return Err(quoted_error("expected ':=' after setting '", name.as_str(), "'"));
        }
        self.expect_symbol('=')?;
        let mut value: Option<Setting> = None;
        if self.position < self.tokens.len() {
            match &self.tokens[self.position] {
                Token::Command(command) => {
                    let command = command.clone();
                    self.position = self.position + 1;
                    match lookup(&self.resolver.commands, command.as_str()) {
                        Some(i) => match &self.resolver.commands[i].1 {
                            Ok(output) => {
                                value = Some(Setting::String(text::trim_str(output.as_str())));
                            },
                            Err(message) => {
                                let a = text::concat("could not run `", command.as_str());
                                let b = text::concat(a.as_str(), "`: ");
                                return Err(Error::Process(text::concat(b.as_str(), message.as_str())));
                            },
                        },
                        None => {
                            self.missing = Some(Request::Command(command.clone()));
                            return Err(Error::Process(text::concat("could not run ", command.as_str())));
                        },
                    }
                },
                Token::Symbol(c) => {
                    if *c == '[' {
                        value = Some(Setting::List(self.strings()?));
                    }
                },
                _ => {},
            }
        }
        let value = match value {
            Some(v) => v,
            None => Setting::String(self.value_string()?),
        };
        proof {
            lemma_settings_key(self.settings@, name@, 0);
            lemma_first_key(self.settings@, name@, 0);
        }
        let ghost before = self.settings@;
        let ghost k = name@;
        let ghost vt = setting_text(value);
        upsert(&mut self.settings, name, value);
        proof {
            match first_key(before, k, 0) {
                Some(i) => {
                    assert(settings_text(self.settings@) =~= settings_text(before).update(i, (k, vt)));
                },
                None => {
                    assert(settings_text(self.settings@) =~= settings_text(before).push((k, vt)));
                },
            }
        }
        Ok(())
    }
}

/// The projects declared in the parser's tokens.
fn run_parser(parser: &mut Parser) -> (r: Result<Vec<Project>, Error>)
    requires
        old(parser).inv(),
    ensures
        final(parser).inv(),
        final(parser).same_input(&*old(parser)),
        r matches Ok(ps) ==> ps@.len() > 0 && forall|i: int|
            0 <= i < ps@.len() ==> well_formed_project(#[trigger] ps@[i]),
        match run_items(old(parser).tokens@, old(parser).position as int, settings_text(old(parser).settings@), binds_text(old(parser).bindings@), Seq::empty(), answers(old(parser).root@, *old(parser).resolver)) {
            Ok(ps) => r matches Ok(x) && projects_text(x@) == ps,
            Err(f) => r matches Err(x) && refused(x, f),
        },
{
    let ghost a = answers(parser.root@, *parser.resolver);
    let mut projects: Vec<Project> = Vec::new();
    assert(projects_text(projects@) =~= Seq::<ProjectText>::empty());
    while !parser.at_end()
        invariant
            parser.inv(),
            parser.same_input(&*old(parser)),
            a == answers(old(parser).root@, *old(parser).resolver),
            forall|i: int| 0 <= i < projects@.len() ==> well_formed_project(#[trigger] projects@[i]),
            run_items(parser.tokens@, parser.position as int, settings_text(parser.settings@), binds_text(parser.bindings@), projects_text(projects@), a)
                == run_items(old(parser).tokens@, old(parser).position as int, settings_text(old(parser).settings@), binds_text(old(parser).bindings@), Seq::empty(), a),
        decreases parser.tokens@.len() - parser.position,
    {
        let ghost ts = parser.tokens@;
        let ghost p = parser.position as int;
        let ghost ss = settings_text(parser.settings@);
        let ghost bs = binds_text(parser.bindings@);
        let word = parser.word()?;
        if text::same(word.as_str(), "project") {
            let project = parser.project()?;
            let ghost before = projects@;
            projects.push(project);
            assert(projects_text(projects@) =~= projects_text(before).push(project_text(project)));
        } else if text::same(word.as_str(), "set") {
            let name = parser.word()?;
            parser.setting(name)?;
        } else {
            let is_setting = parser.position < parser.tokens.len() && match &parser.tokens[parser.position] {
                Token::Word(w) => text::same(w.as_str(), ":"),
                _ => false,
            };
            if !is_setting {
                return Err(quoted_error("expected 'project', got '", word.as_str(), "'"));
            }
            parser.setting(word)?;
        }
    }
    if projects.len() == 0 {
        return Err(parse_error("expected an identifier"));
    }
    Ok(projects)
}

/// Parses a token list; also gives the first request that the resolver
/// could not answer, if the parse needed one.
fn parse_tokens(tokens: Vec<Token>, root: &str, resolver: &Resolver) -> (r: (
    Result<Vec<Project>, Error>,
    Option<Request>,
))
    ensures
        r.0 matches Ok(ps) ==> ps@.len() > 0 && forall|i: int|
            0 <= i < ps@.len() ==> well_formed_project(#[trigger] ps@[i]),
        r.1 matches Some(q) ==> unanswered(resolver, q),
        match parsed_projects(tokens@, answers(root@, *resolver)) {
            Ok(ps) => r.0 matches Ok(x) && projects_text(x@) == ps,
            Err(f) => r.0 matches Err(x) && refused(x, f),
        },
{
    let mut parser = Parser {
        tokens,
        position: 0,
        root: root.to_owned(),
        resolver,
        bindings: Vec::new(),
        settings: Vec::new(),
        missing: None,
    };
    assert(keys(parser.settings@) =~= Seq::<Seq<char>>::empty());
    assert(settings_text(parser.settings@) =~= Seq::<(Seq<char>, SettingText)>::empty());
    assert(binds_text(parser.bindings@) =~= Seq::<(Seq<char>, BindingText)>::empty());
    let result = run_parser(&mut parser);
    (result, parser.missing)
}

/// Parses every project of a `nox.build` text. Paths are joined to `root`,
/// the directory that holds the file.
pub fn parse_projects(text_in: &str, root: &str, resolver: &Resolver) -> (r: Result<Vec<Project>, Error>)
    ensures
        lex_spec(text_in@) matches Err(m) ==> r matches Err(e) && e matches Error::Parse(s) && s@ == m,
        r matches Ok(ps) ==> lex_spec(text_in@) is Ok && ps@.len() > 0 && forall|i: int|
            0 <= i < ps@.len() ==> well_formed_project(#[trigger] ps@[i]),
        lex_spec(text_in@) is Ok ==> exists|ts: Seq<Token>|
            #![trigger toks(ts)]
            toks(ts) == lex_spec(text_in@)->Ok_0 && match parsed_projects(ts, answers(root@, *resolver)) {
                Ok(ps) => r matches Ok(x) && projects_text(x@) == ps,
                Err(f) => r matches Err(x) && refused(x, f),
            },
{
    let tokens = match lex(text_in) {
        Ok(t) => t,
        Err(m) => return Err(Error::Parse(m)),
    };
    let ghost ts = tokens@;
    let r = parse_tokens(tokens, root, resolver).0;
    assert(toks(ts) == lex_spec(text_in@)->Ok_0);
    r
}

/// Parses the first project of a `nox.build` text.
pub fn parse(text_in: &str, root: &str, resolver: &Resolver) -> (r: Result<Project, Error>)
    ensures
        lex_spec(text_in@) matches Err(m) ==> r matches Err(e) && e matches Error::Parse(s) && s@ == m,
        r matches Ok(p) ==> lex_spec(text_in@) is Ok && well_formed_project(p),
        lex_spec(text_in@) is Ok ==> exists|ts: Seq<Token>|
            #![trigger toks(ts)]
            toks(ts) == lex_spec(text_in@)->Ok_0 && match parsed_projects(ts, answers(root@, *resolver)) {
                Ok(ps) => r matches Ok(x) && project_text(x) == ps[0],
                Err(f) => r matches Err(x) && refused(x, f),
            },
{
    let mut projects = parse_projects(text_in, root, resolver)?;
    let ghost all = projects@;
    let first = projects.remove(0);
    assert(projects_text(all)[0] == project_text(first));
    Ok(first)
}

/// The first value that parsing `text_in` needs from outside and that
/// `resolver` does not hold yet, if any. A caller answers it, adds the
/// answer to the resolver and asks again until nothing is missing.
pub fn next_request(text_in: &str, root: &str, resolver: &Resolver) -> (r: Option<Request>)
    ensures
        lex_spec(text_in@) is Err ==> r is None,
        r matches Some(q) ==> unanswered(resolver, q),
{
    match lex(text_in) {
        Ok(tokens) => parse_tokens(tokens, root, resolver).1,
        Err(_) => None,
    }
}

/// Law: each target property writes its own field and no other: after
/// `FIELD = VALUE` the target's FIELD holds the value read (a list of
/// strings or paths, or a boolean) and every other field is as before; the
/// property is refused exactly when its value does not read.
pub proof fn lemma_target_property_writes_its_field(
    t: TargetText,
    ts: Seq<Token>,
    q: int,
    bs: Seq<(Seq<char>, BindingText)>,
    root: Seq<char>,
    listings: Seq<(String, Result<Vec<DirEntry>, String>)>,
)
    ensures
        match target_property(t, "sources"@, ts, q, bs, root, listings) {
            Some((n, e)) => n == (TargetText { sources: n.sources, ..t }) && paths_value(ts, q, bs, root, listings) == Some((n.sources, e)),
            None => paths_value(ts, q, bs, root, listings) is None,
        },
        match target_property(t, "dependencies"@, ts, q, bs, root, listings) {
            Some((n, e)) => n == (TargetText { dependencies: n.dependencies, ..t }) && strings_value(ts, q, bs) == Some((n.dependencies, e)),
            None => strings_value(ts, q, bs) is None,
        },
        match target_property(t, "depends"@, ts, q, bs, root, listings) {
            Some((n, e)) => n == (TargetText { dependencies: n.dependencies, ..t }) && strings_value(ts, q, bs) == Some((n.dependencies, e)),
            None => strings_value(ts, q, bs) is None,
        },
        match target_property(t, "include_dirs"@, ts, q, bs, root, listings) {
            Some((n, e)) => n == (TargetText { include_dirs: n.include_dirs, ..t }) && paths_value(ts, q, bs, root, listings) == Some((n.include_dirs, e)),
            None => paths_value(ts, q, bs, root, listings) is None,
        },
        match target_property(t, "includes"@, ts, q, bs, root, listings) {
            Some((n, e)) => n == (TargetText { include_dirs: n.include_dirs, ..t }) && paths_value(ts, q, bs, root, listings) == Some((n.include_dirs, e)),
            None => paths_value(ts, q, bs, root, listings) is None,
        },
        match target_property(t, "defines"@, ts, q, bs, root, listings) {
            Some((n, e)) => n == (TargetText { defines: n.defines, ..t }) && strings_value(ts, q, bs) == Some((n.defines, e)),
            None => strings_value(ts, q, bs) is None,
        },
        match target_property(t, "flags"@, ts, q, bs, root, listings) {
            Some((n, e)) => n == (TargetText { flags: n.flags, ..t }) && strings_value(ts, q, bs) == Some((n.flags, e)),
            None => strings_value(ts, q, bs) is None,
        },
        match target_property(t, "linker_flags"@, ts, q, bs, root, listings) {
            Some((n, e)) => n == (TargetText { linker_flags: n.linker_flags, ..t }) && strings_value(ts, q, bs) == Some((n.linker_flags, e)),
            None => strings_value(ts, q, bs) is None,
        },
        match target_property(t, "gradle_tasks"@, ts, q, bs, root, listings) {
            Some((n, e)) => n == (TargetText { gradle_tasks: n.gradle_tasks, ..t }) && strings_value(ts, q, bs) == Some((n.gradle_tasks, e)),
            None => strings_value(ts, q, bs) is None,
        },
        match target_property(t, "tasks"@, ts, q, bs, root, listings) {
            Some((n, e)) => n == (TargetText { gradle_tasks: n.gradle_tasks, ..t }) && strings_value(ts, q, bs) == Some((n.gradle_tasks, e)),
            None => strings_value(ts, q, bs) is None,
        },
        match target_property(t, "gradle_options"@, ts, q, bs, root, listings) {
            Some((n, e)) => n == (TargetText { gradle_options: n.gradle_options, ..t }) && strings_value(ts, q, bs) == Some((n.gradle_options, e)),
            None => strings_value(ts, q, bs) is None,
        },
        match target_property(t, "options"@, ts, q, bs, root, listings) {
            Some((n, e)) => n == (TargetText { gradle_options: n.gradle_options, ..t }) && strings_value(ts, q, bs) == Some((n.gradle_options, e)),
            None => strings_value(ts, q, bs) is None,
        },
        match target_property(t, "gradle_run_tasks"@, ts, q, bs, root, listings) {
            Some((n, e)) => n == (TargetText { gradle_run_tasks: n.gradle_run_tasks, ..t }) && strings_value(ts, q, bs) == Some((n.gradle_run_tasks, e)),
            None => strings_value(ts, q, bs) is None,
        },
        match target_property(t, "run_tasks"@, ts, q, bs, root, listings) {
            Some((n, e)) => n == (TargetText { gradle_run_tasks: n.gradle_run_tasks, ..t }) && strings_value(ts, q, bs) == Some((n.gradle_run_tasks, e)),
            None => strings_value(ts, q, bs) is None,
        },
        match target_property(t, "gradle_run_options"@, ts, q, bs, root, listings) {
            Some((n, e)) => n == (TargetText { gradle_run_options: n.gradle_run_options, ..t }) && strings_value(ts, q, bs) == Some((n.gradle_run_options, e)),
            None => strings_value(ts, q, bs) is None,
        },
        match target_property(t, "run_options"@, ts, q, bs, root, listings) {
            Some((n, e)) => n == (TargetText { gradle_run_options: n.gradle_run_options, ..t }) && strings_value(ts, q, bs) == Some((n.gradle_run_options, e)),
            None => strings_value(ts, q, bs) is None,
        },
        match target_property(t, "install"@, ts, q, bs, root, listings) {
            Some((n, e)) => n == (TargetText { install: n.install, ..t }) && boolean_value(ts, q, bs) == Some(n.install)
                && e == q + 1,
            None => boolean_value(ts, q, bs) is None,
        },
{
    reveal_strlit("sources");
    reveal_strlit("dependencies");
    reveal_strlit("depends");
    reveal_strlit("include_dirs");
    reveal_strlit("includes");
    reveal_strlit("defines");
    reveal_strlit("flags");
    reveal_strlit("linker_flags");
    reveal_strlit("gradle_tasks");
    reveal_strlit("tasks");
    reveal_strlit("gradle_options");
    reveal_strlit("options");
    reveal_strlit("gradle_run_tasks");
    reveal_strlit("run_tasks");
    reveal_strlit("gradle_run_options");
    reveal_strlit("run_options");
    reveal_strlit("install");
    assert("dependencies"@.len() != "sources"@.len());
    assert("depends"@[0] != "sources"@[0]);
    assert("depends"@.len() != "dependencies"@.len());
    assert("include_dirs"@.len() != "sources"@.len());
    assert("include_dirs"@[0] != "dependencies"@[0]);
    assert("include_dirs"@.len() != "depends"@.len());
    assert("includes"@.len() != "sources"@.len());
    assert("includes"@.len() != "dependencies"@.len());
    assert("includes"@.len() != "depends"@.len());
    assert("includes"@.len() != "include_dirs"@.len());
    assert("defines"@[0] != "sources"@[0]);
    assert("defines"@.len() != "dependencies"@.len());
    assert("defines"@[2] != "depends"@[2]);
    assert("defines"@.len() != "include_dirs"@.len());
    assert("defines"@.len() != "includes"@.len());
    assert("flags"@.len() != "sources"@.len());
    assert("flags"@.len() != "dependencies"@.len());
    assert("flags"@.len() != "depends"@.len());
    assert("flags"@.len() != "include_dirs"@.len());
    assert("flags"@.len() != "includes"@.len());
    assert("flags"@.len() != "defines"@.len());
    assert("linker_flags"@.len() != "sources"@.len());
    assert("linker_flags"@[0] != "dependencies"@[0]);
    assert("linker_flags"@.len() != "depends"@.len());
    assert("linker_flags"@[0] != "include_dirs"@[0]);
    assert("linker_flags"@.len() != "includes"@.len());
    assert("linker_flags"@.len() != "defines"@.len());
    assert("linker_flags"@.len() != "flags"@.len());
    assert("gradle_tasks"@.len() != "sources"@.len());
    assert("gradle_tasks"@[0] != "dependencies"@[0]);
    assert("gradle_tasks"@.len() != "depends"@.len());
    assert("gradle_tasks"@[0] != "include_dirs"@[0]);
    assert("gradle_tasks"@.len() != "includes"@.len());
    assert("gradle_tasks"@.len() != "defines"@.len());
    assert("gradle_tasks"@.len() != "flags"@.len());
    assert("gradle_tasks"@[0] != "linker_flags"@[0]);
    assert("tasks"@.len() != "sources"@.len());
    assert("tasks"@.len() != "dependencies"@.len());
    assert("tasks"@.len() != "depends"@.len());
    assert("tasks"@.len() != "include_dirs"@.len());
    assert("tasks"@.len() != "includes"@.len());
    assert("tasks"@.len() != "defines"@.len());
    assert("tasks"@[0] != "flags"@[0]);
    assert("tasks"@.len() != "linker_flags"@.len());
    assert("tasks"@.len() != "gradle_tasks"@.len());
    assert("gradle_options"@.len() != "sources"@.len());
    assert("gradle_options"@.len() != "dependencies"@.len());
    assert("gradle_options"@.len() != "depends"@.len());
    assert("gradle_options"@.len() != "include_dirs"@.len());
    assert("gradle_options"@.len() != "includes"@.len());
    assert("gradle_options"@.len() != "defines"@.len());
    assert("gradle_options"@.len() != "flags"@.len());
    assert("gradle_options"@.len() != "linker_flags"@.len());
    assert("gradle_options"@.len() != "gradle_tasks"@.len());
    assert("gradle_options"@.len() != "tasks"@.len());
    assert("options"@[0] != "sources"@[0]);
    assert("options"@.len() != "dependencies"@.len());
    assert("options"@[0] != "depends"@[0]);
    assert("options"@.len() != "include_dirs"@.len());
    assert("options"@.len() != "includes"@.len());
    assert("options"@[0] != "defines"@[0]);
    assert("options"@.len() != "flags"@.len());
    assert("options"@.len() != "linker_flags"@.len());
    assert("options"@.len() != "gradle_tasks"@.len());
    assert("options"@.len() != "tasks"@.len());
    assert("options"@.len() != "gradle_options"@.len());
    assert("gradle_run_tasks"@.len() != "sources"@.len());
    assert("gradle_run_tasks"@.len() != "dependencies"@.len());
    assert("gradle_run_tasks"@.len() != "depends"@.len());
    assert("gradle_run_tasks"@.len() != "include_dirs"@.len());
    assert("gradle_run_tasks"@.len() != "includes"@.len());
    assert("gradle_run_tasks"@.len() != "defines"@.len());
    assert("gradle_run_tasks"@.len() != "flags"@.len());
    assert("gradle_run_tasks"@.len() != "linker_flags"@.len());
    assert("gradle_run_tasks"@.len() != "gradle_tasks"@.len());
    assert("gradle_run_tasks"@.len() != "tasks"@.len());
    assert("gradle_run_tasks"@.len() != "gradle_options"@.len());
    assert("gradle_run_tasks"@.len() != "options"@.len());
    assert("run_tasks"@.len() != "sources"@.len());
    assert("run_tasks"@.len() != "dependencies"@.len());
    assert("run_tasks"@.len() != "depends"@.len());
    assert("run_tasks"@.len() != "include_dirs"@.len());
    assert("run_tasks"@.len() != "includes"@.len());
    assert("run_tasks"@.len() != "defines"@.len());
    assert("run_tasks"@.len() != "flags"@.len());
    assert("run_tasks"@.len() != "linker_flags"@.len());
    assert("run_tasks"@.len() != "gradle_tasks"@.len());
    assert("run_tasks"@.len() != "tasks"@.len());
    assert("run_tasks"@.len() != "gradle_options"@.len());
    assert("run_tasks"@.len() != "options"@.len());
    assert("run_tasks"@.len() != "gradle_run_tasks"@.len());
    assert("gradle_run_options"@.len() != "sources"@.len());
    assert("gradle_run_options"@.len() != "dependencies"@.len());
    assert("gradle_run_options"@.len() != "depends"@.len());
    assert("gradle_run_options"@.len() != "include_dirs"@.len());
    assert("gradle_run_options"@.len() != "includes"@.len());
    assert("gradle_run_options"@.len() != "defines"@.len());
    assert("gradle_run_options"@.len() != "flags"@.len());
    assert("gradle_run_options"@.len() != "linker_flags"@.len());
    assert("gradle_run_options"@.len() != "gradle_tasks"@.len());
    assert("gradle_run_options"@.len() != "tasks"@.len());
    assert("gradle_run_options"@.len() != "gradle_options"@.len());
    assert("gradle_run_options"@.len() != "options"@.len());
    assert("gradle_run_options"@.len() != "gradle_run_tasks"@.len());
    assert("gradle_run_options"@.len() != "run_tasks"@.len());
    assert("run_options"@.len() != "sources"@.len());
    assert("run_options"@.len() != "dependencies"@.len());
    assert("run_options"@.len() != "depends"@.len());
    assert("run_options"@.len() != "include_dirs"@.len());
    assert("run_options"@.len() != "includes"@.len());
    assert("run_options"@.len() != "defines"@.len());
    assert("run_options"@.len() != "flags"@.len());
    assert("run_options"@.len() != "linker_flags"@.len());
    assert("run_options"@.len() != "gradle_tasks"@.len());
    assert("run_options"@.len() != "tasks"@.len());
    assert("run_options"@.len() != "gradle_options"@.len());
    assert("run_options"@.len() != "options"@.len());
    assert("run_options"@.len() != "gradle_run_tasks"@.len());
    assert("run_options"@.len() != "run_tasks"@.len());
    assert("run_options"@.len() != "gradle_run_options"@.len());
    assert("install"@[0] != "sources"@[0]);
    assert("install"@.len() != "dependencies"@.len());
    assert("install"@[0] != "depends"@[0]);
    assert("install"@.len() != "include_dirs"@.len());
    assert("install"@.len() != "includes"@.len());
    assert("install"@[0] != "defines"@[0]);
    assert("install"@.len() != "flags"@.len());
    assert("install"@.len() != "linker_flags"@.len());
    assert("install"@.len() != "gradle_tasks"@.len());
    assert("install"@.len() != "tasks"@.len());
    assert("install"@.len() != "gradle_options"@.len());
    assert("install"@[0] != "options"@[0]);
    assert("install"@.len() != "gradle_run_tasks"@.len());
    assert("install"@.len() != "run_tasks"@.len());
    assert("install"@.len() != "gradle_run_options"@.len());
    assert("install"@.len() != "run_options"@.len());
}

/// Law: each project member sets its own field and no other, and leaves the
/// bindings as they are: after `version = ...`, `description = "..."` and the
/// like, that field holds the value read and every other field (the targets
/// among them) is as before; `let NAME = VALUE` adds one binding and changes
/// no field; a member is refused exactly when its value does not read.
pub proof fn lemma_project_member_writes_its_field(
    pt: ProjectText,
    bs: Seq<(Seq<char>, BindingText)>,
    ts: Seq<Token>,
    p: int,
    a: Answers,
)
    ensures
        match project_member(pt, bs, "version"@, ts, p, a) {
            Ok((n, nbs, e)) => n == (ProjectText { version: n.version, ..pt }) && nbs == bs && symbol_at(ts, p, '=') && (n.version matches Some(v) && version_value(ts, p + 1, bs, a.files) == Some((v, e))),
            Err(_) => !(symbol_at(ts, p, '=') && version_value(ts, p + 1, bs, a.files) is Some),
        },
        match project_member(pt, bs, "version_files"@, ts, p, a) {
            Ok((n, nbs, e)) => n == (ProjectText { version_files: n.version_files, ..pt }) && nbs == bs && (n.version_files matches Some(v) && assigned_strings(ts, p, bs) == Some((v, e))),
            Err(_) => !(assigned_strings(ts, p, bs) is Some),
        },
        match project_member(pt, bs, "description"@, ts, p, a) {
            Ok((n, nbs, e)) => n == (ProjectText { description: n.description, ..pt }) && nbs == bs && assigned_string(ts, p, bs) == Some((n.description, e)),
            Err(_) => !(assigned_string(ts, p, bs) is Some),
        },
        match project_member(pt, bs, "license"@, ts, p, a) {
            Ok((n, nbs, e)) => n == (ProjectText { license: n.license, ..pt }) && nbs == bs && symbol_at(ts, p, '=') && license_value(ts, p + 1, bs, a.licenses) == Some((n.license, e)),
            Err(_) => !(symbol_at(ts, p, '=') && license_value(ts, p + 1, bs, a.licenses) is Some),
        },
        match project_member(pt, bs, "edition"@, ts, p, a) {
            Ok((n, nbs, e)) => n == (ProjectText { edition: n.edition, ..pt }) && nbs == bs && assigned_string(ts, p, bs) == Some((n.edition, e)),
            Err(_) => !(assigned_string(ts, p, bs) is Some),
        },
        match project_member(pt, bs, "dependencies"@, ts, p, a) {
            Ok((n, nbs, e)) => n == (ProjectText { dependencies: n.dependencies, ..pt }) && nbs == bs && assigned_strings(ts, p, bs) == Some((n.dependencies, e)),
            Err(_) => !(assigned_strings(ts, p, bs) is Some),
        },
        match project_member(pt, bs, "repository"@, ts, p, a) {
            Ok((n, nbs, e)) => n == (ProjectText { repository: n.repository, ..pt }) && nbs == bs && (n.repository matches Some(v) && assigned_string(ts, p, bs) == Some((v, e))),
            Err(_) => !(assigned_string(ts, p, bs) is Some),
        },
        match project_member(pt, bs, "website"@, ts, p, a) {
            Ok((n, nbs, e)) => n == (ProjectText { website: n.website, ..pt }) && nbs == bs && (n.website matches Some(v) && assigned_string(ts, p, bs) == Some((v, e))),
            Err(_) => !(assigned_string(ts, p, bs) is Some),
        },
        match project_member(pt, bs, "authors"@, ts, p, a) {
            Ok((n, nbs, e)) => n == (ProjectText { authors: n.authors, ..pt }) && nbs == bs && assigned_strings(ts, p, bs) == Some((n.authors, e)),
            Err(_) => !(assigned_strings(ts, p, bs) is Some),
        },
        match project_member(pt, bs, "maintainers"@, ts, p, a) {
            Ok((n, nbs, e)) => n == (ProjectText { maintainers: n.maintainers, ..pt }) && nbs == bs && assigned_strings(ts, p, bs) == Some((n.maintainers, e)),
            Err(_) => !(assigned_strings(ts, p, bs) is Some),
        },
        match project_member(pt, bs, "let"@, ts, p, a) {
            Ok((n, nbs, e)) => n == pt && (declaration(ts, p, bs) matches Some((x, b, e2)) && e == e2 && nbs == bs.push((x, b))),
            Err(_) => declaration(ts, p, bs) is None,
        },
{
    reveal_strlit("version");
    reveal_strlit("version_files");
    reveal_strlit("description");
    reveal_strlit("license");
    reveal_strlit("edition");
    reveal_strlit("dependencies");
    reveal_strlit("repository");
    reveal_strlit("website");
    reveal_strlit("authors");
    reveal_strlit("maintainers");
    reveal_strlit("let");
    reveal_strlit("extra.env");
    assert("version_files"@.len() != "version"@.len());
    assert("description"@.len() != "version"@.len());
    assert("description"@.len() != "version_files"@.len());
    assert("license"@[0] != "version"@[0]);
    assert("license"@.len() != "version_files"@.len());
    assert("license"@.len() != "description"@.len());
    assert("edition"@[0] != "version"@[0]);
    assert("edition"@.len() != "version_files"@.len());
    assert("edition"@.len() != "description"@.len());
    assert("edition"@[0] != "license"@[0]);
    assert("dependencies"@.len() != "version"@.len());
    assert("dependencies"@.len() != "version_files"@.len());
    assert("dependencies"@.len() != "description"@.len());
    assert("dependencies"@.len() != "license"@.len());
    assert("dependencies"@.len() != "edition"@.len());
    assert("repository"@.len() != "version"@.len());
    assert("repository"@.len() != "version_files"@.len());
    assert("repository"@.len() != "description"@.len());
    assert("repository"@.len() != "license"@.len());
    assert("repository"@.len() != "edition"@.len());
    assert("repository"@.len() != "dependencies"@.len());
    assert("website"@[0] != "version"@[0]);
    assert("website"@.len() != "version_files"@.len());
    assert("website"@.len() != "description"@.len());
    assert("website"@[0] != "license"@[0]);
    assert("website"@[0] != "edition"@[0]);
    assert("website"@.len() != "dependencies"@.len());
    assert("website"@.len() != "repository"@.len());
    assert("authors"@[0] != "version"@[0]);
    assert("authors"@.len() != "version_files"@.len());
    assert("authors"@.len() != "description"@.len());
    assert("authors"@[0] != "license"@[0]);
    assert("authors"@[0] != "edition"@[0]);
    assert("authors"@.len() != "dependencies"@.len());
    assert("authors"@.len() != "repository"@.len());
    assert("authors"@[0] != "website"@[0]);
    assert("maintainers"@.len() != "version"@.len());
    assert("maintainers"@.len() != "version_files"@.len());
    assert("maintainers"@[0] != "description"@[0]);
    assert("maintainers"@.len() != "license"@.len());
    assert("maintainers"@.len() != "edition"@.len());
    assert("maintainers"@.len() != "dependencies"@.len());
    assert("maintainers"@.len() != "repository"@.len());
    assert("maintainers"@.len() != "website"@.len());
    assert("maintainers"@.len() != "authors"@.len());
    assert("let"@.len() != "version"@.len());
    assert("let"@.len() != "version_files"@.len());
    assert("let"@.len() != "description"@.len());
    assert("let"@.len() != "license"@.len());
    assert("let"@.len() != "edition"@.len());
    assert("let"@.len() != "dependencies"@.len());
    assert("let"@.len() != "repository"@.len());
    assert("let"@.len() != "website"@.len());
    assert("let"@.len() != "authors"@.len());
    assert("let"@.len() != "maintainers"@.len());
}

/// Law: a target member adds its target after those declared before it and
/// changes nothing else: the project's other fields and the bindings stay as
/// they are.
pub proof fn lemma_target_member_appends(
    pt: ProjectText,
    bs: Seq<(Seq<char>, BindingText)>,
    m: Seq<char>,
    ts: Seq<Token>,
    p: int,
    a: Answers,
)
    requires
        member_target_kind(m) is Some,
        m != "version"@,
        m != "version_files"@,
        m != "description"@,
        m != "license"@,
        m != "edition"@,
        m != "dependencies"@,
        m != "repository"@,
        m != "website"@,
        m != "authors"@,
        m != "maintainers"@,
        m != "let"@,
        m != "extra.env"@,
    ensures
        project_member(pt, bs, m, ts, p, a) matches Ok((n, nbs, e)) ==> {
            &&& n == (ProjectText { targets: n.targets, ..pt })
            &&& nbs == bs
            &&& n.targets.len() == pt.targets.len() + 1
            &&& n.targets.drop_last() == pt.targets
            &&& target_value(member_target_kind(m)->0, ts, p, bs, a.root, a.listings) == Ok::<(TargetText, int), Refusal>((n.targets.last(), e))
        },
{
    if project_member(pt, bs, m, ts, p, a) is Ok {
        let t = target_value(member_target_kind(m)->0, ts, p, bs, a.root, a.listings)->Ok_0.0;
        assert(pt.targets.push(t).drop_last() == pt.targets);
    }
}

/// Quoted strings from `p` on, one token apart (`gap` 1) or each followed by
/// a comma (`gap` 2), and the `]` after them.
pub open spec fn quoted_items(ts: Seq<Token>, p: int, qs: Seq<Seq<char>>, gap: int) -> bool {
    &&& forall|k: int| 0 <= k < qs.len() ==> ((#[trigger] ts[p + gap * k]) matches Token::Str(w) && w@ == qs[k])
    &&& gap == 2 ==> forall|k: int| 0 <= k < qs.len() ==> symbol_at(ts, #[trigger] (p + 2 * k + 1), ',')
    &&& symbol_at(ts, p + gap * qs.len(), ']')
}

proof fn lemma_list_items(ts: Seq<Token>, p: int, qs: Seq<Seq<char>>, gap: int, bs: Seq<(Seq<char>, BindingText)>)
    requires
        gap == 1 || gap == 2,
        0 <= p,
        quoted_items(ts, p, qs, gap),
    ensures
        list_items(ts, p, bs) == Some((qs, p + gap * qs.len() + 1)),
    decreases qs.len(),
{
    if qs.len() > 0 {
        assert(ts[p + gap * 0] matches Token::Str(w) && w@ == qs[0]);
        assert(p + gap * 0 == p);
        let rest = qs.drop_first();
        let next = p + gap;
        if gap == 2 {
            assert(symbol_at(ts, p + 2 * 0 + 1, ','));
        } else {
            assert(!symbol_at(ts, p + 1, ',')) by {
                if qs.len() > 1 {
                    assert(ts[p + gap * 1] matches Token::Str(_));
                } else {
                    assert(symbol_at(ts, p + gap * qs.len(), ']'));
                }
            }
        }
        assert forall|k: int| 0 <= k < rest.len() implies ((#[trigger] ts[next + gap * k]) matches Token::Str(w) && w@ == rest[k]) by {
            assert(next + gap * k == p + gap * (k + 1)) by (nonlinear_arith)
                requires next == p + gap;
            assert(ts[p + gap * (k + 1)] matches Token::Str(w) && w@ == qs[k + 1]);
        }
        if gap == 2 {
            assert forall|k: int| 0 <= k < rest.len() implies symbol_at(ts, #[trigger] (next + 2 * k + 1), ',') by {
                assert(symbol_at(ts, p + 2 * (k + 1) + 1, ','));
            }
        }
        assert(next + gap * rest.len() == p + gap * qs.len()) by (nonlinear_arith)
            requires next == p + gap, rest.len() == qs.len() - 1;
        lemma_list_items(ts, next, rest, gap, bs);
        assert(seq![qs[0]] + rest == qs);
        assert(next + gap * rest.len() + 1 == p + gap * qs.len() + 1);
    } else {
        assert(p + gap * qs.len() == p);
    }
}

/// Law: a bracketed list of quoted strings, with or without a comma after
/// each, reads as those strings in their order, and reading goes on past
/// the `]`.
pub proof fn lemma_quoted_list(ts: Seq<Token>, p: int, qs: Seq<Seq<char>>, gap: int, bs: Seq<(Seq<char>, BindingText)>)
    requires
        gap == 1 || gap == 2,
        0 <= p,
        symbol_at(ts, p, '['),
        quoted_items(ts, p + 1, qs, gap),
    ensures
        strings_value(ts, p, bs) == Some((qs, p + gap * qs.len() + 2)),
{
    lemma_list_items(ts, p + 1, qs, gap, bs);
}

/// Law: a name bound by `let` to a list reads as that list wherever a list
/// of strings is expected, and a name bound to a string as a list of that
/// one string.
pub proof fn lemma_bound_list(ts: Seq<Token>, p: int, bs: Seq<(Seq<char>, BindingText)>)
    requires
        0 <= p < ts.len(),
        ts[p] is Word,
    ensures
        binding_at(bs, ts[p]->Word_0@) matches Some(BindingText::List(vs)) ==> strings_value(ts, p, bs) == Some((vs, p + 1)),
        binding_at(bs, ts[p]->Word_0@) matches Some(BindingText::Str(v)) ==> strings_value(ts, p, bs) == Some((seq![v], p + 1)),
{
}

} // verus!
