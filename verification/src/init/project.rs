//! What the scan of a directory found.
use vstd::prelude::*;
use crate::init::language::{Language, ProjectType};

verus! {

/// The findings of `nox init`'s scan. Paths are relative to `root`. The
/// languages are listed once each, in the order of `Language`; the
/// directory lists hold each directory once, in the order found; the
/// file lists are in `Path` order.
#[derive(Clone, Debug)]
pub struct ProjectInfo {
    pub root: String,
    pub name: Option<String>,
    pub languages: Vec<Language>,
    pub source_files: Vec<String>,
    pub header_files: Vec<String>,
    pub source_directories: Vec<String>,
    pub test_directories: Vec<String>,
    pub existing_files: Vec<String>,
    pub package_manifests: Vec<String>,
    pub build_systems: Vec<String>,
    pub formatter_configs: Vec<String>,
    pub project_type: Option<ProjectType>,
    pub has_flake: bool,
    pub has_nix_formatter: bool,
    pub has_nox_build: bool,
    pub has_noxfile: bool,
    pub has_git: bool,
    pub has_readme: bool,
    pub has_tests: bool,
}

/// The position of a language in the order of `Language`.
pub open spec fn rank(l: Language) -> nat {
    match l {
        Language::Rust => 0,
        Language::Haskell => 1,
        Language::C => 2,
        Language::Cpp => 3,
        Language::D => 4,
        Language::Swift => 5,
        Language::FSharp => 6,
        Language::JavaScript => 7,
        Language::TypeScript => 8,
        Language::Python => 9,
        Language::Unknown => 10,
    }
}

pub fn rank_of(l: Language) -> (r: u8)
    ensures
        r == rank(l),
{
    match l {
        Language::Rust => 0,
        Language::Haskell => 1,
        Language::C => 2,
        Language::Cpp => 3,
        Language::D => 4,
        Language::Swift => 5,
        Language::FSharp => 6,
        Language::JavaScript => 7,
        Language::TypeScript => 8,
        Language::Python => 9,
        Language::Unknown => 10,
    }
}

pub proof fn lemma_rank_injective(a: Language, b: Language)
    ensures
        rank(a) == rank(b) ==> a == b,
{
}

/// Languages in strictly increasing order (a set, listed in order).
pub open spec fn ordered_languages(s: Seq<Language>) -> bool {
    forall|i: int, j: int| 0 <= i < j < s.len() ==> rank(#[trigger] s[i]) < rank(#[trigger] s[j])
}

/// Adds a language to an ordered set of languages.
pub fn insert_language(v: &mut Vec<Language>, l: Language)
    requires
        ordered_languages(old(v)@),
    ensures
        ordered_languages(final(v)@),
        forall|x: Language| #[trigger] final(v)@.contains(x) <==> (old(v)@.contains(x) || x == l),
{
    let key = rank_of(l);
    let mut i: usize = 0;
    let mut done = false;
    while !done && i < v.len()
        invariant
            i <= v@.len(),
            ordered_languages(v@),
            v@ == old(v)@,
            key == rank(l),
            forall|j: int| 0 <= j < i ==> rank(#[trigger] v@[j]) < rank(l),
            done ==> i < v@.len() && rank(v@[i as int]) >= rank(l),
        decreases v@.len() - i, if done { 0int } else { 1int },
    {
        if rank_of(v[i]) < key {
            i = i + 1;
        } else {
            done = true;
        }
    }
    if i < v.len() && v[i] == l {
        assert(v@[i as int] == l);
        return;
    }
    proof {
        if i < v@.len() {
            lemma_rank_injective(v@[i as int], l);
        }
    }
    let ghost before = v@;
    assert(before == old(v)@);
    v.insert(i, l);
    assert(v@ == before.insert(i as int, l));
    assert forall|a: int, b: int| 0 <= a < b < v@.len() implies rank(#[trigger] v@[a]) < rank(#[trigger] v@[b]) by {
        if b < i {
        } else if b == i {
            assert(v@[a] == before[a]);
        } else if a < i {
            assert(v@[b] == before[b - 1]);
            if i < before.len() {
                assert(rank(before[i as int]) >= rank(l));
                assert(rank(before[i as int]) != rank(l));
                if b - 1 > i {
                    assert(rank(before[i as int]) < rank(before[b - 1]));
                }
            }
        } else if a == i {
            assert(v@[b] == before[b - 1]);
            assert(rank(before[i as int]) >= rank(l));
            assert(rank(before[i as int]) != rank(l));
            if b - 1 > i {
                assert(rank(before[i as int]) < rank(before[b - 1]));
            }
        } else {
            assert(v@[a] == before[a - 1]);
            assert(v@[b] == before[b - 1]);
        }
    }
    assert forall|x: Language| #[trigger] v@.contains(x) <==> (old(v)@.contains(x) || x == l) by {
        if v@.contains(x) {
            let k = choose|k: int| 0 <= k < v@.len() && v@[k] == x;
            if k < i {
                assert(before[k] == x);
            } else if k > i {
                assert(before[k - 1] == x);
            }
        }
        if old(v)@.contains(x) {
            let k = choose|k: int| 0 <= k < before.len() && before[k] == x;
            if k < i {
                assert(v@[k] == x);
            } else {
                assert(v@[k + 1] == x);
            }
        }
        if x == l {
            assert(v@[i as int] == x);
        }
    }
}

/// Removes a language from an ordered set of languages.
pub fn remove_language(v: &mut Vec<Language>, l: Language)
    requires
        ordered_languages(old(v)@),
    ensures
        ordered_languages(final(v)@),
        forall|x: Language| #[trigger] final(v)@.contains(x) <==> (old(v)@.contains(x) && x != l),
{
    let mut i: usize = 0;
    while i < v.len()
        invariant
            i <= v@.len(),
            v@ == old(v)@,
            ordered_languages(v@),
            forall|j: int| 0 <= j < i ==> v@[j] != l,
        decreases v@.len() - i,
    {
        if v[i] == l {
            let ghost before = v@;
            v.remove(i);
            assert(v@ == before.remove(i as int));
            assert forall|a: int, b: int| 0 <= a < b < v@.len() implies rank(#[trigger] v@[a]) < rank(#[trigger] v@[b]) by {
                let aa = if a < i { a } else { a + 1 };
                let bb = if b < i { b } else { b + 1 };
                assert(v@[a] == before[aa]);
                assert(v@[b] == before[bb]);
            }
            assert forall|x: Language| v@.contains(x) <==> (before.contains(x) && x != l) by {
                if v@.contains(x) {
                    let k = choose|k: int| 0 <= k < v@.len() && v@[k] == x;
                    let kk = if k < i { k } else { k + 1 };
                    assert(before[kk] == x);
                    if x == l {
                        assert(rank(before[kk]) == rank(before[i as int]));
                    }
                }
                if before.contains(x) && x != l {
                    let k = choose|k: int| 0 <= k < before.len() && before[k] == x;
                    if k < i {
                        assert(v@[k] == x);
                    } else {
                        assert(k != i);
                        assert(v@[k - 1] == x);
                    }
                }
            }
            return;
        }
        i = i + 1;
    }
}

impl ProjectInfo {
    /// Findings with nothing found, for the directory `root`.
    pub fn empty(root: &str) -> (r: ProjectInfo)
        ensures
            r.root@ == root@,
            r.name is None,
            r.languages@.len() == 0,
            r.source_files@.len() == 0,
            r.header_files@.len() == 0,
            r.source_directories@.len() == 0,
            r.test_directories@.len() == 0,
            r.existing_files@.len() == 0,
            r.package_manifests@.len() == 0,
            r.build_systems@.len() == 0,
            r.formatter_configs@.len() == 0,
            r.project_type is None,
            !r.has_flake && !r.has_nix_formatter && !r.has_nox_build && !r.has_noxfile,
            !r.has_git && !r.has_readme && !r.has_tests,
    {
        ProjectInfo {
            root: crate::text::owned(root),
            name: None,
            languages: Vec::new(),
            source_files: Vec::new(),
            header_files: Vec::new(),
            source_directories: Vec::new(),
            test_directories: Vec::new(),
            existing_files: Vec::new(),
            package_manifests: Vec::new(),
            build_systems: Vec::new(),
            formatter_configs: Vec::new(),
            project_type: None,
            has_flake: false,
            has_nix_formatter: false,
            has_nox_build: false,
            has_noxfile: false,
            has_git: false,
            has_readme: false,
            has_tests: false,
        }
    }
}

impl Default for ProjectInfo {
    fn default() -> (r: ProjectInfo)
        ensures
            r.root@.len() == 0,
            r.name is None,
            r.languages@.len() == 0,
            r.source_files@.len() == 0,
            r.header_files@.len() == 0,
            r.source_directories@.len() == 0,
            r.test_directories@.len() == 0,
            r.existing_files@.len() == 0,
            r.package_manifests@.len() == 0,
            r.build_systems@.len() == 0,
            r.formatter_configs@.len() == 0,
            r.project_type is None,
            !r.has_flake && !r.has_nix_formatter && !r.has_nox_build && !r.has_noxfile,
            !r.has_git && !r.has_readme && !r.has_tests,
    {
        let r = ProjectInfo::empty("");
        proof {
            reveal_strlit("");
        }
        r
    }
}

} // verus!
