//! The language and project type that `nox init` settles on.
use vstd::prelude::*;
use crate::paths;
use crate::text;
use crate::rules::init::{InitRules, LanguageRule, rule_names};
use crate::init::error::Error;
use crate::init::language::{
    Language, ProjectType, first_rule_language, lists, project_type_named, lemma_first_rule_language,
    rule_has_extension,
};
use crate::init::project::ProjectInfo;
use crate::init::scanner::source_language;

verus! {

/// How the language is settled: it is known, or the user is asked, with
/// a default for an empty answer.
#[derive(Clone, Copy, Debug, PartialEq, Eq, Structural)]
pub enum LanguageChoice {
    Chosen(Language),
    Ask(Language),
}

/// The language an answer or option names by the rules.
pub open spec fn names_language(rules: InitRules, value: Seq<char>, r: Option<Language>) -> bool {
    first_rule_language(rules.languages@, |rule: LanguageRule| rule_names(rule, text::lower_seq(value)), r)
}

/// Settles the language: the requested one (an error when the rules do
/// not know it), the only one found, or, when several were found or the
/// user can answer, a question whose default is the first one found (Rust
/// when none was); Rust otherwise.
pub fn language(project: &ProjectInfo, rules: &InitRules, requested: Option<&str>, interactive: bool) -> (r: Result<LanguageChoice, Error>)
    ensures
        match requested {
            Some(v) => match r {
                Ok(LanguageChoice::Chosen(l)) => names_language(*rules, v@, Some(l)),
                Ok(LanguageChoice::Ask(_)) => false,
                Err(e) => names_language(*rules, v@, None) && (e matches Error::UnsupportedLanguage(s) && s@ == v@),
            },
            None => if project.languages@.len() == 1 {
                r == Ok::<LanguageChoice, Error>(LanguageChoice::Chosen(project.languages@[0]))
            } else if project.languages@.len() > 1 {
                r == Ok::<LanguageChoice, Error>(LanguageChoice::Ask(project.languages@[0]))
            } else if interactive {
                r == Ok::<LanguageChoice, Error>(LanguageChoice::Ask(Language::Rust))
            } else {
                r == Ok::<LanguageChoice, Error>(LanguageChoice::Chosen(Language::Rust))
            },
        },
{
    match requested {
        Some(v) => match Language::parse_with_rules(v, rules) {
            Some(l) => Ok(LanguageChoice::Chosen(l)),
            None => Err(Error::UnsupportedLanguage(text::owned(v))),
        },
        None => {
            if project.languages.len() == 1 {
                Ok(LanguageChoice::Chosen(project.languages[0]))
            } else if project.languages.len() > 1 {
                Ok(LanguageChoice::Ask(project.languages[0]))
            } else if interactive {
                Ok(LanguageChoice::Ask(Language::Rust))
            } else {
                Ok(LanguageChoice::Chosen(Language::Rust))
            }
        },
    }
}

/// The language an answer to the question names: the default for an
/// empty answer, else the language the trimmed answer names.
pub fn answer(value: &str, default: Language, rules: &InitRules) -> (r: Result<Language, Error>)
    ensures
        text::trim(value@).len() == 0 ==> r == Ok::<Language, Error>(default),
        text::trim(value@).len() > 0 ==> match r {
            Ok(l) => names_language(*rules, text::trim(value@), Some(l)),
            Err(e) => names_language(*rules, text::trim(value@), None)
                && (e matches Error::UnsupportedLanguage(s) && s@ == text::trim(value@)),
        },
{
    let v = text::trim_str(value);
    if text::chars_of(v.as_str()).len() == 0 {
        return Ok(default);
    }
    match Language::parse_with_rules(v.as_str(), rules) {
        Some(l) => Ok(l),
        None => Err(Error::UnsupportedLanguage(v)),
    }
}

/// The project type: the requested one (an error for an unknown name),
/// else the inferred one, else an executable.
pub fn project_type(project: &ProjectInfo, requested: Option<&str>) -> (r: Result<ProjectType, Error>)
    ensures
        match requested {
            Some(v) => match project_type_named(text::lower_seq(v@)) {
                Some(t) => r == Ok::<ProjectType, Error>(t),
                None => r matches Err(Error::Configuration(m))
                    && m@ == "unsupported project type '"@ + v@ + "'"@,
            },
            None => r == Ok::<ProjectType, Error>(match project.project_type {
                Some(t) => t,
                None => ProjectType::Executable,
            }),
        },
{
    match requested {
        Some(v) => match ProjectType::parse(v) {
            Some(t) => Ok(t),
            None => {
                let mut m = text::owned("unsupported project type '");
                text::push_str(&mut m, v);
                text::push_str(&mut m, "'");
                Err(Error::Configuration(m))
            },
        },
        None => Ok(match project.project_type {
            Some(t) => t,
            None => ProjectType::Executable,
        }),
    }
}

/// Whether the first rule for `l` lists `name` as an entry point.
pub open spec fn main_file_of(rules: InitRules, l: Language, name: Seq<char>) -> bool {
    exists|i: int|
        0 <= i < rules.languages@.len() && (#[trigger] rules.languages@[i]).language == l
            && (forall|j: int| 0 <= j < i ==> (#[trigger] rules.languages@[j]).language != l)
            && text::views(rules.languages@[i].main_files@).contains(name)
}

/// Whether a source file is an entry point: its file name is a main file
/// of its language.
pub open spec fn is_main_source(path: Seq<char>, rules: InitRules) -> bool {
    source_language(path, rules) matches Some(l) && paths::file_name(path) matches Some(n) && main_file_of(rules, l, n)
}

fn rule_index(rules: &InitRules, l: Language) -> (r: Option<usize>)
    ensures
        match r {
            Some(i) => i < rules.languages@.len() && rules.languages@[i as int].language == l
                && forall|j: int| 0 <= j < i ==> (#[trigger] rules.languages@[j]).language != l,
            None => forall|j: int| 0 <= j < rules.languages@.len() ==> (#[trigger] rules.languages@[j]).language != l,
        },
{
    let mut i: usize = 0;
    while i < rules.languages.len()
        invariant
            i <= rules.languages@.len(),
            forall|j: int| 0 <= j < i ==> (#[trigger] rules.languages@[j]).language != l,
        decreases rules.languages@.len() - i,
    {
        if rules.languages[i].language == l {
            return Some(i);
        }
        i = i + 1;
    }
    None
}

fn main_source(path: &str, rules: &InitRules) -> (r: bool)
    ensures
        r == is_main_source(path@, *rules),
{
    let l = Language::from_path_with_rules(path, rules);
    proof {
        lemma_first_rule_language(rules.languages@, |rule: LanguageRule| rule_has_extension(rule, path@), l);
    }
    let l = match l {
        Some(l) => l,
        None => return false,
    };
    let name = match paths::file_name_of(path) {
        Some(n) => n,
        None => return false,
    };
    match rule_index(rules, l) {
        Some(k) => {
            let r = lists(&rules.languages[k].main_files, name.as_str());
            proof {
                if main_file_of(*rules, l, name@) {
                    let i = choose|i: int| 0 <= i < rules.languages@.len() && (#[trigger] rules.languages@[i]).language == l
                        && (forall|j: int| 0 <= j < i ==> (#[trigger] rules.languages@[j]).language != l)
                        && text::views(rules.languages@[i].main_files@).contains(name@);
                    if i < k {
                        assert(rules.languages@[i].language != l);
                    }
                    if k < i {
                        assert(rules.languages@[k as int].language != l);
                    }
                }
                if r {
                    assert(rules.languages@[k as int].language == l);
                }
            }
            r
        },
        None => false,
    }
}

/// The findings `after` are those `before` with the type inferred: an
/// executable when the type is unknown and a source is an entry point.
pub open spec fn inferred(before: ProjectInfo, after: ProjectInfo, rules: InitRules) -> bool {
    after == ProjectInfo {
        project_type: if before.project_type is None && exists|i: int|
            0 <= i < before.source_files@.len() && is_main_source(#[trigger] before.source_files@[i]@, rules) {
            Some(ProjectType::Executable)
        } else {
            before.project_type
        },
        ..before
    }
}

/// Marks the project an executable when its type is unknown and one of
/// its source files is an entry point of its language.
pub fn infer_type(project: &mut ProjectInfo, rules: &InitRules)
    ensures
        inferred(*old(project), *final(project), *rules),
{
    if project.project_type.is_some() {
        return;
    }
    let mut found = false;
    let mut i: usize = 0;
    while i < project.source_files.len() && !found
        invariant
            i <= project.source_files@.len(),
            found ==> exists|j: int| 0 <= j < project.source_files@.len() && is_main_source(#[trigger] project.source_files@[j]@, *rules),
            !found ==> forall|j: int| 0 <= j < i ==> !is_main_source(#[trigger] project.source_files@[j]@, *rules),
        decreases project.source_files@.len() - i, if found { 0int } else { 1int },
    {
        if main_source(project.source_files[i].as_str(), rules) {
            found = true;
        } else {
            i = i + 1;
        }
    }
    if found {
        project.project_type = Some(ProjectType::Executable);
    }
}

} // verus!
