//! The project model that `nox.build` describes.
use vstd::prelude::*;
use crate::text;

verus! {

/// A top-level task setting: a string or a list of strings.
#[derive(Clone, Debug, PartialEq, Eq)]
pub enum Setting {
    String(String),
    List(Vec<String>),
}

/// The language named by `executable.<language>`.
#[derive(Clone, Copy, Debug, PartialEq, Eq)]
pub enum TargetLanguage {
    Rust,
    Haskell,
    C,
    Cpp,
    D,
    Swift,
    FSharp,
    JavaScript,
    TypeScript,
    Python,
    Kotlin,
    Gradle,
}

/// The language that a (lower-cased) name denotes.
pub open spec fn language_named(v: Seq<char>) -> Option<TargetLanguage> {
    if v == "rust"@ {
        Some(TargetLanguage::Rust)
    } else if v == "haskell"@ {
        Some(TargetLanguage::Haskell)
    } else if v == "c"@ {
        Some(TargetLanguage::C)
    } else if v == "cpp"@ || v == "c++"@ || v == "cxx"@ {
        Some(TargetLanguage::Cpp)
    } else if v == "d"@ {
        Some(TargetLanguage::D)
    } else if v == "swift"@ {
        Some(TargetLanguage::Swift)
    } else if v == "fsharp"@ || v == "f#"@ {
        Some(TargetLanguage::FSharp)
    } else if v == "javascript"@ || v == "js"@ {
        Some(TargetLanguage::JavaScript)
    } else if v == "typescript"@ || v == "ts"@ {
        Some(TargetLanguage::TypeScript)
    } else if v == "python"@ || v == "py"@ {
        Some(TargetLanguage::Python)
    } else if v == "kotlin"@ || v == "kt"@ {
        Some(TargetLanguage::Kotlin)
    } else if v == "gradle"@ {
        Some(TargetLanguage::Gradle)
    } else {
        None
    }
}

/// Lower-cases a string in ASCII.
pub fn ascii_lowercase(value: &str) -> (r: String)
    ensures
        r@ == text::lower_seq(value@),
{
    let cs = text::chars_of(value);
    let mut out: Vec<char> = Vec::new();
    let mut i: usize = 0;
    while i < cs.len()
        invariant
            i <= cs@.len(),
            cs@ == value@,
            out@ == text::lower_seq(cs@.take(i as int)),
        decreases cs@.len() - i,
    {
        out.push(text::to_lower(cs[i]));
        assert(text::lower_seq(cs@.take(i + 1)) == text::lower_seq(cs@.take(i as int)).push(
            text::lower(cs@[i as int]),
        ));
        i = i + 1;
    }
    assert(cs@.take(cs@.len() as int) == cs@);
    text::string_of(&out)
}

impl TargetLanguage {
    /// Parses a language name, ignoring ASCII case.
    pub fn parse(value: &str) -> (r: Option<Self>)
        ensures
            r == language_named(text::lower_seq(value@)),
    {
        let v = ascii_lowercase(value);
        let s = v.as_str();
        if text::same(s, "rust") {
            Some(TargetLanguage::Rust)
        } else if text::same(s, "haskell") {
            Some(TargetLanguage::Haskell)
        } else if text::same(s, "c") {
            Some(TargetLanguage::C)
        } else if text::same(s, "cpp") || text::same(s, "c++") || text::same(s, "cxx") {
            Some(TargetLanguage::Cpp)
        } else if text::same(s, "d") {
            Some(TargetLanguage::D)
        } else if text::same(s, "swift") {
            Some(TargetLanguage::Swift)
        } else if text::same(s, "fsharp") || text::same(s, "f#") {
            Some(TargetLanguage::FSharp)
        } else if text::same(s, "javascript") || text::same(s, "js") {
            Some(TargetLanguage::JavaScript)
        } else if text::same(s, "typescript") || text::same(s, "ts") {
            Some(TargetLanguage::TypeScript)
        } else if text::same(s, "python") || text::same(s, "py") {
            Some(TargetLanguage::Python)
        } else if text::same(s, "kotlin") || text::same(s, "kt") {
            Some(TargetLanguage::Kotlin)
        } else if text::same(s, "gradle") {
            Some(TargetLanguage::Gradle)
        } else {
            None
        }
    }
}

/// What a target builds.
#[derive(Clone, Copy, Debug, PartialEq, Eq)]
pub enum TargetKind {
    Executable { language: Option<TargetLanguage> },
    StaticLibrary,
    SharedLibrary,
    RustLibrary,
}

/// One target of a project. Paths are written as text, already joined to
/// the directory that holds `nox.build`.
#[derive(Clone, Debug)]
pub struct Target {
    pub name: String,
    pub kind: TargetKind,
    pub sources: Vec<String>,
    pub dependencies: Vec<String>,
    pub include_dirs: Vec<String>,
    pub defines: Vec<String>,
    pub flags: Vec<String>,
    pub linker_flags: Vec<String>,
    pub gradle_tasks: Vec<String>,
    pub gradle_options: Vec<String>,
    pub gradle_run_tasks: Vec<String>,
    pub gradle_run_options: Vec<String>,
    pub install: bool,
}

/// A project declared in `nox.build`. Settings and environment entries are
/// kept in declaration order with at most one entry per name.
#[derive(Clone, Debug)]
pub struct Project {
    pub name: String,
    pub version: Option<String>,
    pub version_files: Option<Vec<String>>,
    pub description: String,
    pub license: String,
    pub edition: String,
    pub dependencies: Vec<String>,
    pub repository: Option<String>,
    pub website: Option<String>,
    pub authors: Vec<String>,
    pub maintainers: Vec<String>,
    pub targets: Vec<Target>,
    pub settings: Vec<(String, Setting)>,
    pub extra_env: Vec<(String, String)>,
}

/// The index of the first target named `name`.
pub open spec fn find_target(targets: Seq<Target>, name: Seq<char>) -> Option<int>
    decreases targets.len(),
{
    if targets.len() == 0 {
        None
    } else if targets[0].name@ == name {
        Some(0)
    } else {
        match find_target(targets.drop_first(), name) {
            Some(i) => Some(i + 1),
            None => None,
        }
    }
}

pub proof fn lemma_find_target(targets: Seq<Target>, name: Seq<char>)
    ensures
        find_target(targets, name) matches Some(i) ==> 0 <= i < targets.len() && targets[i].name@
            == name && forall|j: int| 0 <= j < i ==> targets[j].name@ != name,
        find_target(targets, name) is None ==> forall|j: int|
            0 <= j < targets.len() ==> targets[j].name@ != name,
    decreases targets.len(),
{
    if targets.len() > 0 && targets[0].name@ != name {
        lemma_find_target(targets.drop_first(), name);
        assert forall|j: int| 1 <= j < targets.len() implies targets[j] == targets.drop_first()[j
            - 1] by {}
    }
}

/// The first index `k >= i` whose name is `name`, scanning from `i`.
pub open spec fn find_target_from(targets: Seq<Target>, name: Seq<char>, i: int) -> Option<int>
    decreases targets.len() - i,
{
    if i < 0 || i >= targets.len() {
        None
    } else if targets[i].name@ == name {
        Some(i)
    } else {
        find_target_from(targets, name, i + 1)
    }
}

pub proof fn lemma_find_target_from(targets: Seq<Target>, name: Seq<char>, i: int)
    requires
        0 <= i <= targets.len(),
        forall|j: int| 0 <= j < i ==> targets[j].name@ != name,
    ensures
        find_target_from(targets, name, i) == find_target(targets, name),
    decreases targets.len() - i,
{
    lemma_find_target(targets, name);
    if i < targets.len() && targets[i].name@ != name {
        lemma_find_target_from(targets, name, i + 1);
    }
}

/// Whether `name` names a target.
pub open spec fn is_target(p: Project, name: Seq<char>) -> bool {
    find_target(p.targets@, name) is Some
}

/// The dependencies of the target named `name` (of the first such target).
pub open spec fn deps_of(p: Project, name: Seq<char>) -> Seq<Seq<char>> {
    match find_target(p.targets@, name) {
        Some(i) => text::views(p.targets@[i].dependencies@),
        None => Seq::empty(),
    }
}

/// `a` is a declared target that depends on `b`.
pub open spec fn edge(p: Project, a: Seq<char>, b: Seq<char>) -> bool {
    is_target(p, a) && deps_of(p, a).contains(b)
}

impl Project {
    /// The first target named `name`.
    pub fn target(&self, name: &str) -> (r: Option<&Target>)
        ensures
            r matches Some(t) ==> find_target(self.targets@, name@) matches Some(i)
                && *t == self.targets@[i],
            r is None ==> find_target(self.targets@, name@) is None,
    {
        let mut i: usize = 0;
        while i < self.targets.len()
            invariant
                i <= self.targets@.len(),
                forall|j: int| 0 <= j < i ==> self.targets@[j].name@ != name@,
            decreases self.targets@.len() - i,
        {
            if text::same(self.targets[i].name.as_str(), name) {
                proof {
                    lemma_find_target_from(self.targets@, name@, i as int);
                }
                return Some(&self.targets[i]);
            }
            i = i + 1;
        }
        proof {
            lemma_find_target_from(self.targets@, name@, i as int);
        }
        None
    }

    /// The value of an `extra.env` entry.
    pub fn env(&self, name: &str) -> (r: Option<&String>)
        ensures
            r matches Some(v) ==> exists|i: int|
                0 <= i < self.extra_env@.len() && self.extra_env@[i].0@ == name@
                    && self.extra_env@[i].1 == *v,
            r is None ==> forall|i: int|
                0 <= i < self.extra_env@.len() ==> self.extra_env@[i].0@ != name@,
    {
        let mut i: usize = 0;
        while i < self.extra_env.len()
            invariant
                i <= self.extra_env@.len(),
                forall|j: int| 0 <= j < i ==> self.extra_env@[j].0@ != name@,
            decreases self.extra_env@.len() - i,
        {
            if text::same(self.extra_env[i].0.as_str(), name) {
                return Some(&self.extra_env[i].1);
            }
            i = i + 1;
        }
        None
    }
}

} // verus!
