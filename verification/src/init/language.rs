//! Languages and project types of `nox init`, and how paths are classified.
use vstd::prelude::*;
use crate::paths;
use crate::text;
pub use crate::rules::init::{Language, ProjectType};
use crate::rules::init::{InitRules, LanguageRule, ConventionRule, rule_names};

verus! {

/// The language that a lower-case name selects.
pub open spec fn language_named(v: Seq<char>) -> Option<Language> {
    if v == "rust"@ {
        Some(Language::Rust)
    } else if v == "haskell"@ || v == "hs"@ {
        Some(Language::Haskell)
    } else if v == "c"@ {
        Some(Language::C)
    } else if v == "cpp"@ || v == "c++"@ || v == "cxx"@ {
        Some(Language::Cpp)
    } else if v == "d"@ {
        Some(Language::D)
    } else if v == "swift"@ {
        Some(Language::Swift)
    } else if v == "fsharp"@ || v == "f#"@ {
        Some(Language::FSharp)
    } else if v == "javascript"@ || v == "js"@ {
        Some(Language::JavaScript)
    } else if v == "typescript"@ || v == "ts"@ {
        Some(Language::TypeScript)
    } else if v == "python"@ || v == "py"@ {
        Some(Language::Python)
    } else {
        None
    }
}

/// The name a language is shown by.
pub open spec fn label_of(l: Language) -> Seq<char> {
    match l {
        Language::Rust => "Rust"@,
        Language::Haskell => "Haskell"@,
        Language::C => "C"@,
        Language::Cpp => "C++"@,
        Language::D => "D"@,
        Language::Swift => "Swift"@,
        Language::FSharp => "F#"@,
        Language::JavaScript => "JavaScript"@,
        Language::TypeScript => "TypeScript"@,
        Language::Python => "Python"@,
        Language::Unknown => "unknown language"@,
    }
}

/// The language of a source file extension.
pub open spec fn language_of_extension(e: Seq<char>) -> Option<Language> {
    if e == "rs"@ {
        Some(Language::Rust)
    } else if e == "hs"@ || e == "lhs"@ {
        Some(Language::Haskell)
    } else if e == "c"@ {
        Some(Language::C)
    } else if e == "cc"@ || e == "cpp"@ || e == "cxx"@ {
        Some(Language::Cpp)
    } else if e == "d"@ {
        Some(Language::D)
    } else if e == "swift"@ {
        Some(Language::Swift)
    } else if e == "fsx"@ || e == "fs"@ {
        Some(Language::FSharp)
    } else if e == "js"@ || e == "jsx"@ || e == "mjs"@ {
        Some(Language::JavaScript)
    } else if e == "ts"@ || e == "tsx"@ {
        Some(Language::TypeScript)
    } else if e == "py"@ {
        Some(Language::Python)
    } else {
        None
    }
}

/// The language of a path, by its extension.
pub open spec fn language_of_path(p: Seq<char>) -> Option<Language> {
    match paths::extension(p) {
        Some(e) => language_of_extension(e),
        None => None,
    }
}

pub open spec fn header_extension(e: Seq<char>) -> bool {
    e == "h"@ || e == "hh"@ || e == "hpp"@ || e == "hxx"@
}

/// The project type that a lower-case name selects.
pub open spec fn project_type_named(v: Seq<char>) -> Option<ProjectType> {
    if v == "executable"@ || v == "exe"@ || v == "binary"@ || v == "bin"@ {
        Some(ProjectType::Executable)
    } else if v == "library"@ || v == "lib"@ {
        Some(ProjectType::Library)
    } else {
        None
    }
}

/// The names of test directories.
pub open spec fn test_component(c: Seq<char>) -> bool {
    c == "test"@ || c == "tests"@ || c == "spec"@ || c == "__tests__"@
}

/// Whether a component of a path (between `/` separators) satisfies `p`.
pub open spec fn some_component(path: Seq<char>, p: spec_fn(Seq<char>) -> bool) -> bool {
    exists|i: int| 0 <= i < text::split(path, '/').len() && p(#[trigger] text::split(path, '/')[i])
}

/// Whether a path lies in a test directory.
pub open spec fn in_test_directory(path: Seq<char>) -> bool {
    some_component(path, |c: Seq<char>| test_component(c))
}

/// A name that the rules list as a test directory.
pub open spec fn rule_test_directory(conventions: Seq<ConventionRule>, c: Seq<char>) -> bool {
    exists|i: int|
        0 <= i < conventions.len() && (#[trigger] conventions[i]).name@ == "test_directories"@
            && text::views(conventions[i].values@).contains(c)
}

/// Whether a path lies in a test directory that the rules name.
pub open spec fn in_rule_test_directory(path: Seq<char>, conventions: Seq<ConventionRule>) -> bool {
    some_component(path, |c: Seq<char>| rule_test_directory(conventions, c))
}

/// Whether a language rule lists the extension of a path.
pub open spec fn rule_has_extension(rule: LanguageRule, path: Seq<char>) -> bool {
    paths::extension(path) matches Some(e) && text::views(rule.extensions@).contains(e)
}

/// Whether a language rule lists the extension of a path as a header's.
pub open spec fn rule_has_header(rule: LanguageRule, path: Seq<char>) -> bool {
    paths::extension(path) matches Some(e) && text::views(rule.header_extensions@).contains(e)
}

/// The language of the first rule satisfying `p`, if any.
pub open spec fn first_rule_language(rules: Seq<LanguageRule>, p: spec_fn(LanguageRule) -> bool, l: Option<Language>) -> bool {
    match l {
        Some(language) => exists|i: int|
            0 <= i < rules.len() && p(#[trigger] rules[i]) && rules[i].language == language
                && forall|j: int| 0 <= j < i ==> !p(#[trigger] rules[j]),
        None => forall|j: int| 0 <= j < rules.len() ==> !p(#[trigger] rules[j]),
    }
}

/// The language of the first rule satisfying `p`.
pub open spec fn first_language_where(rules: Seq<LanguageRule>, p: spec_fn(LanguageRule) -> bool) -> Option<Language> {
    if exists|i: int| 0 <= i < rules.len() && p(#[trigger] rules[i]) {
        Some(rules[choose|i: int| 0 <= i < rules.len() && p(#[trigger] rules[i]) && forall|j: int| 0 <= j < i ==> !p(#[trigger] rules[j])].language)
    } else {
        None
    }
}

pub proof fn lemma_first_rule_language(rules: Seq<LanguageRule>, p: spec_fn(LanguageRule) -> bool, r: Option<Language>)
    requires
        first_rule_language(rules, p, r),
    ensures
        r == first_language_where(rules, p),
{
    if let Some(l) = r {
        let i = choose|i: int| 0 <= i < rules.len() && p(#[trigger] rules[i]) && rules[i].language == l
            && forall|j: int| 0 <= j < i ==> !p(#[trigger] rules[j]);
        assert(p(rules[i]));
        let c = choose|c: int| 0 <= c < rules.len() && p(#[trigger] rules[c]) && forall|j: int| 0 <= j < c ==> !p(#[trigger] rules[j]);
        if c < i {
            assert(!p(rules[c]));
        }
        if c > i {
            assert(!p(rules[i]));
        }
    }
}

/// Whether a list of names holds `name`.
pub fn lists(list: &Vec<String>, name: &str) -> (r: bool)
    ensures
        r == text::views(list@).contains(name@),
{
    let mut i: usize = 0;
    while i < list.len()
        invariant
            i <= list@.len(),
            forall|j: int| 0 <= j < i ==> list@[j]@ != name@,
        decreases list@.len() - i,
    {
        if text::same(list[i].as_str(), name) {
            assert(text::views(list@)[i as int] == name@);
            return true;
        }
        i = i + 1;
    }
    proof {
        if text::views(list@).contains(name@) {
            let j = choose|j: int| 0 <= j < text::views(list@).len() && text::views(list@)[j] == name@;
            assert(list@[j]@ == name@);
        }
    }
    false
}

/// Whether some `/`-separated component of `path` satisfies the test
/// that `names` gives: a component in `names`.
fn has_component_in(path: &str, names: &Vec<String>) -> (r: bool)
    ensures
        r == some_component(path@, |c: Seq<char>| text::views(names@).contains(c)),
{
    let cs = text::chars_of(path);
    let parts = text::split_char(cs.as_slice(), '/');
    let ghost pieces = parts@.map_values(|p: Vec<char>| p@);
    let mut i: usize = 0;
    while i < parts.len()
        invariant
            i <= parts@.len(),
            pieces == text::split(path@, '/'),
            pieces == parts@.map_values(|p: Vec<char>| p@),
            forall|j: int| 0 <= j < i ==> !text::views(names@).contains(#[trigger] pieces[j]),
        decreases parts@.len() - i,
    {
        let piece = text::string_of(parts[i].as_slice());
        assert(pieces[i as int] == parts@[i as int]@);
        if lists(names, piece.as_str()) {
            assert((|c: Seq<char>| text::views(names@).contains(c))(text::split(path@, '/')[i as int]));
            return true;
        }
        i = i + 1;
    }
    false
}

impl Language {
    /// Parses a language name, ignoring ASCII case.
    pub fn parse(value: &str) -> (r: Option<Self>)
        ensures
            r == language_named(text::lower_seq(value@)),
    {
        let v = crate::domain::model::ascii_lowercase(value);
        let s = v.as_str();
        if text::same(s, "rust") {
            Some(Language::Rust)
        } else if text::same(s, "haskell") || text::same(s, "hs") {
            Some(Language::Haskell)
        } else if text::same(s, "c") {
            Some(Language::C)
        } else if text::same(s, "cpp") || text::same(s, "c++") || text::same(s, "cxx") {
            Some(Language::Cpp)
        } else if text::same(s, "d") {
            Some(Language::D)
        } else if text::same(s, "swift") {
            Some(Language::Swift)
        } else if text::same(s, "fsharp") || text::same(s, "f#") {
            Some(Language::FSharp)
        } else if text::same(s, "javascript") || text::same(s, "js") {
            Some(Language::JavaScript)
        } else if text::same(s, "typescript") || text::same(s, "ts") {
            Some(Language::TypeScript)
        } else if text::same(s, "python") || text::same(s, "py") {
            Some(Language::Python)
        } else {
            None
        }
    }

    /// The name a language is shown by.
    pub fn label(self) -> (r: &'static str)
        ensures
            r@ == label_of(self),
    {
        match self {
            Language::Rust => "Rust",
            Language::Haskell => "Haskell",
            Language::C => "C",
            Language::Cpp => "C++",
            Language::D => "D",
            Language::Swift => "Swift",
            Language::FSharp => "F#",
            Language::JavaScript => "JavaScript",
            Language::TypeScript => "TypeScript",
            Language::Python => "Python",
            Language::Unknown => "unknown language",
        }
    }

    /// The language of a source file, by its extension.
    pub fn from_path(path: &str) -> (r: Option<Self>)
        ensures
            r == language_of_path(path@),
    {
        let e = match paths::extension_of(path) {
            Some(e) => e,
            None => return None,
        };
        let s = e.as_str();
        if text::same(s, "rs") {
            Some(Language::Rust)
        } else if text::same(s, "hs") || text::same(s, "lhs") {
            Some(Language::Haskell)
        } else if text::same(s, "c") {
            Some(Language::C)
        } else if text::same(s, "cc") || text::same(s, "cpp") || text::same(s, "cxx") {
            Some(Language::Cpp)
        } else if text::same(s, "d") {
            Some(Language::D)
        } else if text::same(s, "swift") {
            Some(Language::Swift)
        } else if text::same(s, "fsx") || text::same(s, "fs") {
            Some(Language::FSharp)
        } else if text::same(s, "js") || text::same(s, "jsx") || text::same(s, "mjs") {
            Some(Language::JavaScript)
        } else if text::same(s, "ts") || text::same(s, "tsx") {
            Some(Language::TypeScript)
        } else if text::same(s, "py") {
            Some(Language::Python)
        } else {
            None
        }
    }

    /// Whether a path names a C or C++ header.
    pub fn is_header(path: &str) -> (r: bool)
        ensures
            r == (paths::extension(path@) matches Some(e) && header_extension(e)),
    {
        match paths::extension_of(path) {
            Some(e) => {
                let s = e.as_str();
                text::same(s, "h") || text::same(s, "hh") || text::same(s, "hpp") || text::same(s, "hxx")
            },
            None => false,
        }
    }

    /// Parses a language name by the rules: the display name or an alias,
    /// ignoring ASCII case; the first matching rule decides.
    pub fn parse_with_rules(value: &str, rules: &InitRules) -> (r: Option<Self>)
        ensures
            first_rule_language(rules.languages@, |rule: LanguageRule| rule_names(rule, text::lower_seq(value@)), r),
    {
        let v = crate::domain::model::ascii_lowercase(value);
        let ghost p = |rule: LanguageRule| rule_names(rule, text::lower_seq(value@));
        let mut i: usize = 0;
        while i < rules.languages.len()
            invariant
                i <= rules.languages@.len(),
                v@ == text::lower_seq(value@),
                p == (|rule: LanguageRule| rule_names(rule, text::lower_seq(value@))),
                forall|j: int| 0 <= j < i ==> !p(#[trigger] rules.languages@[j]),
            decreases rules.languages@.len() - i,
        {
            let rule = &rules.languages[i];
            let display = crate::domain::model::ascii_lowercase(rule.display_name.as_str());
            if text::same(display.as_str(), v.as_str()) || lists(&rule.aliases, v.as_str()) {
                assert(p(rules.languages@[i as int]));
                return Some(rule.language);
            }
            i = i + 1;
        }
        None
    }

    /// The language of a source file by the rules' extensions.
    pub fn from_path_with_rules(path: &str, rules: &InitRules) -> (r: Option<Self>)
        ensures
            first_rule_language(rules.languages@, |rule: LanguageRule| rule_has_extension(rule, path@), r),
    {
        let ghost p = |rule: LanguageRule| rule_has_extension(rule, path@);
        let e = match paths::extension_of(path) {
            Some(e) => e,
            None => return None,
        };
        let mut i: usize = 0;
        while i < rules.languages.len()
            invariant
                i <= rules.languages@.len(),
                paths::extension(path@) == Some(e@),
                p == (|rule: LanguageRule| rule_has_extension(rule, path@)),
                forall|j: int| 0 <= j < i ==> !p(#[trigger] rules.languages@[j]),
            decreases rules.languages@.len() - i,
        {
            if lists(&rules.languages[i].extensions, e.as_str()) {
                assert(p(rules.languages@[i as int]));
                return Some(rules.languages[i].language);
            }
            i = i + 1;
        }
        None
    }

    /// Whether a path names a header by the rules' header extensions.
    pub fn is_header_with_rules(path: &str, rules: &InitRules) -> (r: bool)
        ensures
            r == exists|i: int| 0 <= i < rules.languages@.len() && rule_has_header(#[trigger] rules.languages@[i], path@),
    {
        let e = match paths::extension_of(path) {
            Some(e) => e,
            None => return false,
        };
        let mut i: usize = 0;
        while i < rules.languages.len()
            invariant
                i <= rules.languages@.len(),
                paths::extension(path@) == Some(e@),
                forall|j: int| 0 <= j < i ==> !rule_has_header(#[trigger] rules.languages@[j], path@),
            decreases rules.languages@.len() - i,
        {
            if lists(&rules.languages[i].header_extensions, e.as_str()) {
                assert(rule_has_header(rules.languages@[i as int], path@));
                return true;
            }
            i = i + 1;
        }
        false
    }
}

impl ProjectType {
    /// Parses a project type name, ignoring ASCII case.
    pub fn parse(value: &str) -> (r: Option<Self>)
        ensures
            r == project_type_named(text::lower_seq(value@)),
    {
        let v = crate::domain::model::ascii_lowercase(value);
        let s = v.as_str();
        if text::same(s, "executable") || text::same(s, "exe") || text::same(s, "binary") || text::same(s, "bin") {
            Some(ProjectType::Executable)
        } else if text::same(s, "library") || text::same(s, "lib") {
            Some(ProjectType::Library)
        } else {
            None
        }
    }
}

/// Whether a path lies in a `test`, `tests`, `spec` or `__tests__`
/// directory.
pub fn is_test_path(path: &str) -> (r: bool)
    ensures
        r == in_test_directory(path@),
{
    let names = vec![text::owned("test"), text::owned("tests"), text::owned("spec"), text::owned("__tests__")];
    let r = has_component_in(path, &names);
    proof {
        assert forall|c: Seq<char>| text::views(names@).contains(c) == test_component(c) by {
            if test_component(c) {
                if c == "test"@ { assert(text::views(names@)[0] == c); }
                if c == "tests"@ { assert(text::views(names@)[1] == c); }
                if c == "spec"@ { assert(text::views(names@)[2] == c); }
                if c == "__tests__"@ { assert(text::views(names@)[3] == c); }
            }
        }
        assert((|c: Seq<char>| text::views(names@).contains(c)) == (|c: Seq<char>| test_component(c)));
    }
    r
}

/// Whether a path lies in a directory that the rules name as a test
/// directory.
pub fn is_test_path_with_rules(path: &str, rules: &InitRules) -> (r: bool)
    ensures
        r == in_rule_test_directory(path@, rules.conventions@),
{
    let mut names: Vec<String> = Vec::new();
    let mut i: usize = 0;
    while i < rules.conventions.len()
        invariant
            i <= rules.conventions@.len(),
            forall|c: Seq<char>| text::views(names@).contains(c) <==> rule_test_directory(rules.conventions@.take(i as int), c),
        decreases rules.conventions@.len() - i,
    {
        let rule = &rules.conventions[i];
        let ghost before = names@;
        if text::same(rule.name.as_str(), "test_directories") {
            let mut k: usize = 0;
            while k < rule.values.len()
                invariant
                    k <= rule.values@.len(),
                    text::views(names@) == text::views(before) + text::views(rule.values@).take(k as int),
                decreases rule.values@.len() - k,
            {
                let ghost mid = names@;
                names.push(text::owned(rule.values[k].as_str()));
                assert(text::views(names@) =~= text::views(mid).push(rule.values@[k as int]@));
                assert(text::views(rule.values@).take(k + 1) == text::views(rule.values@).take(k as int).push(rule.values@[k as int]@));
                k = k + 1;
            }
            assert(text::views(rule.values@).take(k as int) == text::views(rule.values@));
            proof { text::lemma_contains_concat(text::views(before), text::views(rule.values@)); }
        }
        proof {
            let t = rules.conventions@.take(i + 1);
            assert(t == rules.conventions@.take(i as int).push(rules.conventions@[i as int]));
            assert forall|c: Seq<char>| text::views(names@).contains(c) <==> rule_test_directory(t, c) by {
                if rule_test_directory(t, c) {
                    let j = choose|j: int| 0 <= j < t.len() && (#[trigger] t[j]).name@ == "test_directories"@
                        && text::views(t[j].values@).contains(c);
                    if j < i {
                        assert(rules.conventions@.take(i as int)[j] == t[j]);
                    }
                }
                if text::views(names@).contains(c) && !text::views(before).contains(c) {
                    assert(t[i as int] == rules.conventions@[i as int]);
                }
                if text::views(before).contains(c) {
                    let j = choose|j: int| 0 <= j < i && (#[trigger] rules.conventions@.take(i as int)[j]).name@ == "test_directories"@
                        && text::views(rules.conventions@.take(i as int)[j].values@).contains(c);
                    assert(t[j] == rules.conventions@.take(i as int)[j]);
                }
            }
        }
        i = i + 1;
    }
    assert(rules.conventions@.take(i as int) == rules.conventions@);
    let r = has_component_in(path, &names);
    assert((|c: Seq<char>| text::views(names@).contains(c)) == (|c: Seq<char>| rule_test_directory(rules.conventions@, c)));
    r
}

} // verus!
