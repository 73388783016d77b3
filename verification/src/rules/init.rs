//! The rules that drive `nox init`: which languages exist and how they are
//! recognised, which directories and files mean what, which target each
//! language builds, and which files are generated.
use vstd::prelude::*;
use crate::text;

verus! {

/// A language that `nox init` can set a project up for.
#[derive(Clone, Copy, Debug, PartialEq, Eq, Structural, PartialOrd, Ord, Hash)]
pub enum Language {
    Rust,
    Haskell,
    C,
    Cpp,
    D,
    Swift,
    FSharp,
    JavaScript,
    TypeScript,
    Python,
    Unknown,
}

/// Whether a project builds a program or a library.
#[derive(Clone, Copy, Debug, PartialEq, Eq, Structural)]
pub enum ProjectType {
    Executable,
    Library,
}

/// How a language is recognised and what it builds.
#[derive(Clone, Debug)]
pub struct LanguageRule {
    pub language: Language,
    pub display_name: String,
    /// Lower-case names that select the language besides its display name.
    pub aliases: Vec<String>,
    pub extensions: Vec<String>,
    pub header_extensions: Vec<String>,
    pub related_files: Vec<String>,
    pub target_types: Vec<String>,
    /// File names that mark a program's entry point.
    pub main_files: Vec<String>,
}

/// A conventional directory and what it holds (`source` or `include`).
#[derive(Clone, Debug)]
pub struct LayoutRule {
    pub name: String,
    pub directory: String,
    pub priority: i32,
    pub role: String,
}

/// A well-known file: the languages it implies, the build system it
/// belongs to, and where the project name can be read from it.
#[derive(Clone, Debug)]
pub struct FileRule {
    pub name: String,
    pub languages: Vec<Language>,
    pub build_system: Option<String>,
    pub project_name: Option<String>,
    pub project_type: Option<ProjectType>,
}

/// A path that the scan skips.
#[derive(Clone, Debug)]
pub struct IgnoreRule {
    pub path: String,
    pub kind: String,
}

/// A naming convention, such as the names of test directories.
#[derive(Clone, Debug)]
pub struct ConventionRule {
    pub name: String,
    pub values: Vec<String>,
    pub priority: i32,
    pub role: String,
}

/// The `nox.build` target keyword for a language and project type.
#[derive(Clone, Debug)]
pub struct TargetRule {
    pub language: Language,
    pub project_type: ProjectType,
    pub target: String,
}

/// A property of a generated target, in the order it is written.
#[derive(Clone, Debug)]
pub struct PropertyRule {
    pub name: String,
    pub order: u32,
    pub required: bool,
    pub automatic: bool,
}

/// Compiler flags that generated targets of some languages start with.
#[derive(Clone, Debug)]
pub struct FlagRule {
    pub name: String,
    pub values: Vec<String>,
    pub languages: Vec<Language>,
    pub order: u32,
}

/// A file that `nox init` may generate, for the listed languages (all
/// languages when the list is empty).
#[derive(Clone, Debug)]
pub struct TemplateRule {
    pub name: String,
    pub path: String,
    pub languages: Vec<Language>,
    pub optional: bool,
}

/// All initialization rules.
#[derive(Clone, Debug)]
pub struct InitRules {
    pub languages: Vec<LanguageRule>,
    pub layouts: Vec<LayoutRule>,
    pub files: Vec<FileRule>,
    pub ignores: Vec<IgnoreRule>,
    pub conventions: Vec<ConventionRule>,
    pub targets: Vec<TargetRule>,
    pub properties: Vec<PropertyRule>,
    pub flags: Vec<FlagRule>,
    pub templates: Vec<TemplateRule>,
}

/// The name that `{:?}` prints for a language.
pub open spec fn debug_name(l: Language) -> Seq<char> {
    match l {
        Language::Rust => "Rust"@,
        Language::Haskell => "Haskell"@,
        Language::C => "C"@,
        Language::Cpp => "Cpp"@,
        Language::D => "D"@,
        Language::Swift => "Swift"@,
        Language::FSharp => "FSharp"@,
        Language::JavaScript => "JavaScript"@,
        Language::TypeScript => "TypeScript"@,
        Language::Python => "Python"@,
        Language::Unknown => "Unknown"@,
    }
}

fn language_debug(l: Language) -> (r: &'static str)
    ensures
        r@ == debug_name(l),
{
    match l {
        Language::Rust => "Rust",
        Language::Haskell => "Haskell",
        Language::C => "C",
        Language::Cpp => "Cpp",
        Language::D => "D",
        Language::Swift => "Swift",
        Language::FSharp => "FSharp",
        Language::JavaScript => "JavaScript",
        Language::TypeScript => "TypeScript",
        Language::Python => "Python",
        Language::Unknown => "Unknown",
    }
}

/// Whether some language rule is for `l`.
pub open spec fn has_language(rules: Seq<LanguageRule>, l: Language) -> bool {
    exists|i: int| 0 <= i < rules.len() && rules[i].language == l
}

/// The first target rule, from `i`, whose language has no language rule.
pub open spec fn unknown_target_from(rules: InitRules, i: int) -> Option<int>
    decreases rules.targets@.len() - i,
{
    if i < 0 || i >= rules.targets@.len() {
        None
    } else if !has_language(rules.languages@, rules.targets@[i].language) {
        Some(i)
    } else {
        unknown_target_from(rules, i + 1)
    }
}

pub open spec fn first_unknown_target(rules: InitRules) -> Option<int> {
    unknown_target_from(rules, 0)
}

/// The first flag rule, from `i`, without values.
pub open spec fn empty_flag_from(rules: InitRules, i: int) -> Option<int>
    decreases rules.flags@.len() - i,
{
    if i < 0 || i >= rules.flags@.len() {
        None
    } else if rules.flags@[i].values@.len() == 0 {
        Some(i)
    } else {
        empty_flag_from(rules, i + 1)
    }
}

pub open spec fn first_empty_flag(rules: InitRules) -> Option<int> {
    empty_flag_from(rules, 0)
}

/// Property rules are listed by strictly increasing order.
pub open spec fn properties_ordered(p: Seq<PropertyRule>) -> bool {
    forall|i: int| 0 <= i < p.len() - 1 ==> (#[trigger] p[i]).order < p[i + 1].order
}

/// What is wrong with a set of rules, checked in this order.
pub open spec fn rules_problem(rules: InitRules) -> Option<Seq<char>> {
    if rules.languages@.len() == 0 {
        Some("init languages cannot be empty"@)
    } else if first_unknown_target(rules) is Some {
        Some("target rule references unknown language "@ + debug_name(
            rules.targets@[first_unknown_target(rules)->0].language,
        ))
    } else if first_empty_flag(rules) is Some {
        Some("flag rule '"@ + rules.flags@[first_empty_flag(rules)->0].name@ + "' has no values"@)
    } else if !properties_ordered(rules.properties@) {
        Some("init properties must be ordered by increasing order"@)
    } else {
        None
    }
}

/// Whether a language rule answers to a lower-case name.
pub open spec fn rule_names(rule: LanguageRule, v: Seq<char>) -> bool {
    text::lower_seq(rule.display_name@) == v || text::views(rule.aliases@).contains(v)
}

/// Whether a template rule is named `name` and applies to `l` (no list means every
/// language).
pub open spec fn template_applies(rule: TemplateRule, name: Seq<char>, l: Language) -> bool {
    rule.name@ == name && (rule.languages@.len() == 0 || rule.languages@.contains(l))
}

fn names(items: &[&str]) -> (r: Vec<String>)
    ensures
        r@.len() == items@.len(),
        forall|i: int| 0 <= i < items@.len() ==> (#[trigger] r@[i])@ == items@[i]@,
{
    let mut r: Vec<String> = Vec::new();
    let mut i: usize = 0;
    while i < items.len()
        invariant
            i <= items@.len(),
            r@.len() == i,
            forall|j: int| 0 <= j < i ==> (#[trigger] r@[j])@ == items@[j]@,
        decreases items@.len() - i,
    {
        r.push(text::owned(items[i]));
        i = i + 1;
    }
    r
}

fn language_rule(
    language: Language,
    display_name: &str,
    aliases: &[&str],
    extensions: &[&str],
    header_extensions: &[&str],
    related_files: &[&str],
    main_files: &[&str],
) -> (r: LanguageRule)
    ensures
        r.language == language,
        r.display_name@ == display_name@,
{
    LanguageRule {
        language,
        display_name: text::owned(display_name),
        aliases: names(aliases),
        extensions: names(extensions),
        header_extensions: names(header_extensions),
        related_files: names(related_files),
        target_types: names(&["executable", "library"]),
        main_files: names(main_files),
    }
}

fn layout(directory: &str, priority: i32, role: &str) -> (r: LayoutRule)
    ensures
        r.directory@ == directory@,
        r.role@ == role@,
        r.priority == priority,
{
    LayoutRule { name: text::owned(directory), directory: text::owned(directory), priority, role: text::owned(role) }
}

fn file(name: &str, languages: Vec<Language>, build_system: Option<&str>, project_name: Option<&str>) -> (r: FileRule)
    ensures
        r.name@ == name@,
        r.languages@ == languages@,
{
    FileRule {
        name: text::owned(name),
        languages,
        build_system: match build_system {
            Some(b) => Some(text::owned(b)),
            None => None,
        },
        project_name: match project_name {
            Some(p) => Some(text::owned(p)),
            None => None,
        },
        project_type: None,
    }
}

fn ignore(path: &str) -> (r: IgnoreRule)
    ensures
        r.path@ == path@,
{
    IgnoreRule { path: text::owned(path), kind: text::owned("directory") }
}

fn target(language: Language, project_type: ProjectType, keyword: &str) -> (r: TargetRule)
    ensures
        r.language == language,
        r.project_type == project_type,
        r.target@ == keyword@,
{
    TargetRule { language, project_type, target: text::owned(keyword) }
}

fn property(name: &str, order: u32, required: bool, automatic: bool) -> (r: PropertyRule)
    ensures
        r.order == order,
        r.name@ == name@,
        r.required == required,
        r.automatic == automatic,
{
    PropertyRule { name: text::owned(name), order, required, automatic }
}

fn template(name: &str, path: &str, languages: Vec<Language>, optional: bool) -> (r: TemplateRule)
    ensures
        r.name@ == name@,
        r.languages@ == languages@,
        r.path@ == path@,
        r.optional == optional,
{
    TemplateRule { name: text::owned(name), path: text::owned(path), languages, optional }
}

/// The built-in rules, table by table, as text.
pub open spec fn language_names(rules: InitRules) -> Seq<(Language, Seq<char>)> {
    rules.languages@.map_values(|l: LanguageRule| (l.language, l.display_name@))
}

pub open spec fn layout_texts(rules: InitRules) -> Seq<(Seq<char>, i32, Seq<char>)> {
    rules.layouts@.map_values(|l: LayoutRule| (l.directory@, l.priority, l.role@))
}

pub open spec fn file_texts(rules: InitRules) -> Seq<(Seq<char>, Seq<Language>)> {
    rules.files@.map_values(|f: FileRule| (f.name@, f.languages@))
}

pub open spec fn ignore_paths(rules: InitRules) -> Seq<Seq<char>> {
    rules.ignores@.map_values(|g: IgnoreRule| g.path@)
}

pub open spec fn target_texts(rules: InitRules) -> Seq<(Language, ProjectType, Seq<char>)> {
    rules.targets@.map_values(|t: TargetRule| (t.language, t.project_type, t.target@))
}

pub open spec fn property_texts(rules: InitRules) -> Seq<(Seq<char>, u32, bool, bool)> {
    rules.properties@.map_values(|p: PropertyRule| (p.name@, p.order, p.required, p.automatic))
}

pub open spec fn template_texts(rules: InitRules) -> Seq<(Seq<char>, Seq<char>, Seq<Language>, bool)> {
    rules.templates@.map_values(|t: TemplateRule| (t.name@, t.path@, t.languages@, t.optional))
}

impl InitRules {
    /// The rules hold a language, every target rule is for a known
    /// language, every flag rule has values, and properties are ordered.
    pub open spec fn valid(&self) -> bool {
        rules_problem(*self) is None
    }

    /// The rules built into `nox init`, checked.
    pub fn load() -> (r: Result<InitRules, String>)
        ensures
            r matches Ok(rules) && rules.valid(),
            r matches Ok(rules) && language_names(rules) == seq![
                (Language::Rust, "Rust"@),
                (Language::Haskell, "Haskell"@),
                (Language::C, "C"@),
                (Language::Cpp, "C++"@),
                (Language::D, "D"@),
                (Language::Swift, "Swift"@),
                (Language::FSharp, "F#"@),
                (Language::JavaScript, "JavaScript"@),
                (Language::TypeScript, "TypeScript"@),
                (Language::Python, "Python"@),
            ] && layout_texts(rules) == seq![
                ("src"@, 10i32, "source"@),
                ("source"@, 20i32, "source"@),
                ("lib"@, 30i32, "source"@),
                ("app"@, 40i32, "source"@),
                ("Sources"@, 50i32, "source"@),
                ("include"@, 10i32, "include"@),
            ] && file_texts(rules) == seq![
                ("Cargo.toml"@, seq![Language::Rust]),
                ("package.json"@, seq![Language::JavaScript]),
                ("Package.swift"@, seq![Language::Swift]),
                ("pyproject.toml"@, seq![Language::Python]),
                ("stack.yaml"@, seq![Language::Haskell]),
                ("dub.json"@, seq![Language::D]),
                ("CMakeLists.txt"@, seq![Language::Cpp]),
                ("flake.nix"@, Seq::<Language>::empty()),
                ("rustfmt.toml"@, Seq::<Language>::empty()),
                (".clang-format"@, Seq::<Language>::empty()),
                (".prettierrc"@, Seq::<Language>::empty()),
                ("fourmolu.yaml"@, Seq::<Language>::empty()),
                (".swift-format"@, Seq::<Language>::empty()),
            ] && ignore_paths(rules) == seq![
                ".git"@,
                ".cache"@,
                ".direnv"@,
                "target"@,
                "build"@,
                "dist"@,
                "dist-newstyle"@,
                "node_modules"@,
            ] && target_texts(rules) == seq![
                (Language::Rust, ProjectType::Executable, "rust_executable"@),
                (Language::Rust, ProjectType::Library, "rust_library"@),
                (Language::Cpp, ProjectType::Executable, "cxx_executable"@),
                (Language::C, ProjectType::Library, "static_library"@),
            ] && property_texts(rules) == seq![
                ("sources"@, 10u32, true, false),
                ("include_dirs"@, 20u32, false, false),
                ("flags"@, 30u32, false, false),
                ("install"@, 40u32, false, true),
            ] && template_texts(rules) == seq![
                ("rust_manifest"@, "Cargo.toml"@, seq![Language::Rust], false),
                ("javascript_manifest"@, "package.json"@, seq![Language::JavaScript, Language::TypeScript], false),
                ("typescript_config"@, "tsconfig.json"@, seq![Language::TypeScript], false),
                ("swift_manifest"@, "Package.swift"@, seq![Language::Swift], false),
                ("python_manifest"@, "pyproject.toml"@, seq![Language::Python], false),
                ("noxfile"@, "noxfile"@, Seq::<Language>::empty(), true),
                ("flake"@, "flake.nix"@, Seq::<Language>::empty(), true),
                ("readme"@, "README.md"@, Seq::<Language>::empty(), true),
                ("gitignore"@, ".gitignore"@, Seq::<Language>::empty(), true),
            ],
    {
        let languages = vec![
            language_rule(Language::Rust, "Rust", &["rust"], &["rs"], &[], &["Cargo.toml"], &["main.rs"]),
            language_rule(Language::Haskell, "Haskell", &["hs"], &["hs", "lhs"], &[], &["stack.yaml"], &["Main.hs"]),
            language_rule(Language::C, "C", &[], &["c"], &["h"], &["Makefile"], &["main.c"]),
            language_rule(Language::Cpp, "C++", &["cpp", "cxx"], &["cc", "cpp", "cxx"], &["h", "hh", "hpp", "hxx"], &["CMakeLists.txt"], &["main.cpp", "main.cc", "main.cxx"]),
            language_rule(Language::D, "D", &[], &["d"], &[], &["dub.json"], &["main.d", "app.d"]),
            language_rule(Language::Swift, "Swift", &[], &["swift"], &[], &["Package.swift"], &["main.swift"]),
            language_rule(Language::FSharp, "F#", &["fsharp"], &["fs", "fsx"], &[], &[], &["main.fsx", "Program.fs"]),
            language_rule(Language::JavaScript, "JavaScript", &["js"], &["js", "jsx", "mjs"], &[], &["package.json"], &["index.js", "main.js"]),
            language_rule(Language::TypeScript, "TypeScript", &["ts"], &["ts", "tsx"], &[], &["tsconfig.json"], &["index.ts", "main.ts"]),
            language_rule(Language::Python, "Python", &["py"], &["py"], &[], &["pyproject.toml"], &["main.py", "__main__.py"]),
        ];
        let layouts = vec![
            layout("src", 10, "source"),
            layout("source", 20, "source"),
            layout("lib", 30, "source"),
            layout("app", 40, "source"),
            layout("Sources", 50, "source"),
            layout("include", 10, "include"),
        ];
        let files = vec![
            file("Cargo.toml", vec![Language::Rust], Some("Cargo"), Some("toml_name")),
            file("package.json", vec![Language::JavaScript], Some("npm"), Some("json_name")),
            file("Package.swift", vec![Language::Swift], Some("SwiftPM"), None),
            file("pyproject.toml", vec![Language::Python], Some("pip"), Some("toml_name")),
            file("stack.yaml", vec![Language::Haskell], Some("Stack"), None),
            file("dub.json", vec![Language::D], Some("dub"), Some("json_name")),
            file("CMakeLists.txt", vec![Language::Cpp], Some("CMake"), None),
            file("flake.nix", vec![], Some("Nix"), None),
            file("rustfmt.toml", vec![], None, None),
            file(".clang-format", vec![], None, None),
            file(".prettierrc", vec![], None, None),
            file("fourmolu.yaml", vec![], None, None),
            file(".swift-format", vec![], None, None),
        ];
        let ignores = vec![
            ignore(".git"),
            ignore(".cache"),
            ignore(".direnv"),
            ignore("target"),
            ignore("build"),
            ignore("dist"),
            ignore("dist-newstyle"),
            ignore("node_modules"),
        ];
        let conventions = vec![
            ConventionRule {
                name: text::owned("test_directories"),
                values: names(&["test", "tests", "spec", "__tests__"]),
                priority: 10,
                role: text::owned("test"),
            },
        ];
        let targets = vec![
            target(Language::Rust, ProjectType::Executable, "rust_executable"),
            target(Language::Rust, ProjectType::Library, "rust_library"),
            target(Language::Cpp, ProjectType::Executable, "cxx_executable"),
            target(Language::C, ProjectType::Library, "static_library"),
        ];
        let properties = vec![
            property("sources", 10, true, false),
            property("include_dirs", 20, false, false),
            property("flags", 30, false, false),
            property("install", 40, false, true),
        ];
        let flags = vec![
            FlagRule {
                name: text::owned("cpp_standard"),
                values: names(&["-std=c++20"]),
                languages: vec![Language::Cpp],
                order: 10,
            },
        ];
        let js = vec![Language::JavaScript, Language::TypeScript];
        let templates = vec![
            template("rust_manifest", "Cargo.toml", vec![Language::Rust], false),
            template("javascript_manifest", "package.json", js, false),
            template("typescript_config", "tsconfig.json", vec![Language::TypeScript], false),
            template("swift_manifest", "Package.swift", vec![Language::Swift], false),
            template("python_manifest", "pyproject.toml", vec![Language::Python], false),
            template("noxfile", "noxfile", vec![], true),
            template("flake", "flake.nix", vec![], true),
            template("readme", "README.md", vec![], true),
            template("gitignore", ".gitignore", vec![], true),
        ];
        let rules = InitRules {
            languages,
            layouts,
            files,
            ignores,
            conventions,
            targets,
            properties,
            flags,
            templates,
        };
        proof {
            assert(rules.languages@[0].language == Language::Rust);
            assert(rules.languages@[2].language == Language::C);
            assert(rules.languages@[3].language == Language::Cpp);
            assert(has_language(rules.languages@, Language::Rust));
            assert(has_language(rules.languages@, Language::C));
            assert(has_language(rules.languages@, Language::Cpp));
            assert(unknown_target_from(rules, 4) is None);
            assert(unknown_target_from(rules, 3) is None);
            assert(unknown_target_from(rules, 2) is None);
            assert(unknown_target_from(rules, 1) is None);
            assert(unknown_target_from(rules, 0) is None);
            assert(empty_flag_from(rules, 1) is None);
            assert(empty_flag_from(rules, 0) is None);
        }
        assert(language_names(rules) =~= seq![
            (Language::Rust, "Rust"@),
            (Language::Haskell, "Haskell"@),
            (Language::C, "C"@),
            (Language::Cpp, "C++"@),
            (Language::D, "D"@),
            (Language::Swift, "Swift"@),
            (Language::FSharp, "F#"@),
            (Language::JavaScript, "JavaScript"@),
            (Language::TypeScript, "TypeScript"@),
            (Language::Python, "Python"@),
        ]);
        assert(layout_texts(rules) =~= seq![
            ("src"@, 10i32, "source"@),
            ("source"@, 20i32, "source"@),
            ("lib"@, 30i32, "source"@),
            ("app"@, 40i32, "source"@),
            ("Sources"@, 50i32, "source"@),
            ("include"@, 10i32, "include"@),
        ]);
        assert(file_texts(rules) =~~= seq![
            ("Cargo.toml"@, seq![Language::Rust]),
            ("package.json"@, seq![Language::JavaScript]),
            ("Package.swift"@, seq![Language::Swift]),
            ("pyproject.toml"@, seq![Language::Python]),
            ("stack.yaml"@, seq![Language::Haskell]),
            ("dub.json"@, seq![Language::D]),
            ("CMakeLists.txt"@, seq![Language::Cpp]),
            ("flake.nix"@, Seq::<Language>::empty()),
            ("rustfmt.toml"@, Seq::<Language>::empty()),
            (".clang-format"@, Seq::<Language>::empty()),
            (".prettierrc"@, Seq::<Language>::empty()),
            ("fourmolu.yaml"@, Seq::<Language>::empty()),
            (".swift-format"@, Seq::<Language>::empty()),
        ]);
        assert(ignore_paths(rules) =~= seq![
            ".git"@,
            ".cache"@,
            ".direnv"@,
            "target"@,
            "build"@,
            "dist"@,
            "dist-newstyle"@,
            "node_modules"@,
        ]);
        assert(target_texts(rules) =~= seq![
            (Language::Rust, ProjectType::Executable, "rust_executable"@),
            (Language::Rust, ProjectType::Library, "rust_library"@),
            (Language::Cpp, ProjectType::Executable, "cxx_executable"@),
            (Language::C, ProjectType::Library, "static_library"@),
        ]);
        assert(property_texts(rules) =~= seq![
            ("sources"@, 10u32, true, false),
            ("include_dirs"@, 20u32, false, false),
            ("flags"@, 30u32, false, false),
            ("install"@, 40u32, false, true),
        ]);
        assert(template_texts(rules) =~~= seq![
            ("rust_manifest"@, "Cargo.toml"@, seq![Language::Rust], false),
            ("javascript_manifest"@, "package.json"@, seq![Language::JavaScript, Language::TypeScript], false),
            ("typescript_config"@, "tsconfig.json"@, seq![Language::TypeScript], false),
            ("swift_manifest"@, "Package.swift"@, seq![Language::Swift], false),
            ("python_manifest"@, "pyproject.toml"@, seq![Language::Python], false),
            ("noxfile"@, "noxfile"@, Seq::<Language>::empty(), true),
            ("flake"@, "flake.nix"@, Seq::<Language>::empty(), true),
            ("readme"@, "README.md"@, Seq::<Language>::empty(), true),
            ("gitignore"@, ".gitignore"@, Seq::<Language>::empty(), true),
        ]);
        match rules.validate() {
            Ok(()) => Ok(rules),
            Err(message) => Err(message),
        }
    }

    /// Checks the rules; the error names the first problem.
    #[verifier::spinoff_prover]
    #[verifier::rlimit(40)]
    pub fn validate(&self) -> (r: Result<(), String>)
        ensures
            r is Ok <==> self.valid(),
            r matches Err(m) ==> rules_problem(*self) == Some(m@),
    {
        if self.languages.len() == 0 {
            return Err(text::owned("init languages cannot be empty"));
        }
        let mut i: usize = 0;
        while i < self.targets.len()
            invariant
                i <= self.targets@.len(),
                self.languages@.len() > 0,
                unknown_target_from(*self, 0) == unknown_target_from(*self, i as int),
            decreases self.targets@.len() - i,
        {
            if self.language(self.targets[i].language).is_none() {
                assert(unknown_target_from(*self, i as int) == Some(i as int));
                let name = language_debug(self.targets[i].language);
                return Err(text::concat("target rule references unknown language ", name));
            }
            i = i + 1;
        }
        let ghost targets_ok = first_unknown_target(*self) is None;
        assert(targets_ok);
        let mut i: usize = 0;
        while i < self.flags.len()
            invariant
                i <= self.flags@.len(),
                self.languages@.len() > 0,
                first_unknown_target(*self) is None,
                empty_flag_from(*self, 0) == empty_flag_from(*self, i as int),
            decreases self.flags@.len() - i,
        {
            if self.flags[i].values.len() == 0 {
                assert(empty_flag_from(*self, i as int) == Some(i as int));
                let head = text::concat("flag rule '", self.flags[i].name.as_str());
                return Err(text::concat(head.as_str(), "' has no values"));
            }
            i = i + 1;
        }
        let ghost flags_ok = first_empty_flag(*self) is None;
        assert(flags_ok);
        let mut i: usize = 1;
        while i < self.properties.len()
            invariant
                1 <= i,
                i <= self.properties@.len() || self.properties@.len() == 0,
                self.languages@.len() > 0,
                first_unknown_target(*self) is None,
                first_empty_flag(*self) is None,
                forall|j: int| 0 <= j < i - 1 && j < self.properties@.len() - 1 ==> (#[trigger] self.properties@[j]).order < self.properties@[j + 1].order,
            decreases self.properties@.len() - i,
        {
            if self.properties[i - 1].order >= self.properties[i].order {
                proof {
                    assert(!properties_ordered(self.properties@)) by {
                        let k = i - 1;
                        assert(!(self.properties@[k].order < self.properties@[k + 1].order));
                    }
                }
                return Err(text::owned("init properties must be ordered by increasing order"));
            }
            i = i + 1;
        }
        Ok(())
    }

    /// The rule for a language.
    pub fn language(&self, language: Language) -> (r: Option<&LanguageRule>)
        ensures
            r matches Some(rule) ==> exists|i: int| 0 <= i < self.languages@.len() && self.languages@[i] == *rule
                && rule.language == language && forall|j: int| 0 <= j < i ==> (#[trigger] self.languages@[j]).language != language,
            r is None <==> !has_language(self.languages@, language),
    {
        let mut i: usize = 0;
        while i < self.languages.len()
            invariant
                i <= self.languages@.len(),
                forall|j: int| 0 <= j < i ==> (#[trigger] self.languages@[j]).language != language,
            decreases self.languages@.len() - i,
        {
            if self.languages[i].language == language {
                return Some(&self.languages[i]);
            }
            i = i + 1;
        }
        None
    }

    /// The first target rule for a language and project type.
    pub fn target(&self, language: Language, project_type: ProjectType) -> (r: Option<&TargetRule>)
        ensures
            r matches Some(rule) ==> exists|i: int| 0 <= i < self.targets@.len() && self.targets@[i] == *rule
                && rule.language == language && rule.project_type == project_type
                && forall|j: int| 0 <= j < i ==> !((#[trigger] self.targets@[j]).language == language
                    && self.targets@[j].project_type == project_type),
            r is None <==> forall|j: int| 0 <= j < self.targets@.len() ==> !((#[trigger] self.targets@[j]).language
                == language && self.targets@[j].project_type == project_type),
    {
        let mut i: usize = 0;
        while i < self.targets.len()
            invariant
                i <= self.targets@.len(),
                forall|j: int| 0 <= j < i ==> !((#[trigger] self.targets@[j]).language == language
                    && self.targets@[j].project_type == project_type),
            decreases self.targets@.len() - i,
        {
            if self.targets[i].language == language && self.targets[i].project_type == project_type {
                return Some(&self.targets[i]);
            }
            i = i + 1;
        }
        None
    }

    /// The first template named `name` that applies to `language`.
    pub fn template(&self, name: &str, language: Language) -> (r: Option<&TemplateRule>)
        ensures
            r matches Some(rule) ==> exists|i: int| 0 <= i < self.templates@.len() && self.templates@[i] == *rule
                && template_applies(*rule, name@, language)
                && forall|j: int| 0 <= j < i ==> !template_applies(#[trigger] self.templates@[j], name@, language),
            r is None <==> forall|j: int| 0 <= j < self.templates@.len() ==> !template_applies(
                #[trigger] self.templates@[j], name@, language),
    {
        let mut i: usize = 0;
        while i < self.templates.len()
            invariant
                i <= self.templates@.len(),
                forall|j: int| 0 <= j < i ==> !template_applies(#[trigger] self.templates@[j], name@, language),
            decreases self.templates@.len() - i,
        {
            let rule = &self.templates[i];
            if text::same(rule.name.as_str(), name) && (rule.languages.len() == 0 || contains_language(&rule.languages, language)) {
                return Some(rule);
            }
            i = i + 1;
        }
        None
    }
}

/// Whether a list holds a language.
pub fn contains_language(list: &Vec<Language>, l: Language) -> (r: bool)
    ensures
        r == list@.contains(l),
{
    let mut i: usize = 0;
    while i < list.len()
        invariant
            i <= list@.len(),
            forall|j: int| 0 <= j < i ==> list@[j] != l,
        decreases list@.len() - i,
    {
        if list[i] == l {
            assert(list@[i as int] == l);
            return true;
        }
        i = i + 1;
    }
    false
}

} // verus!
