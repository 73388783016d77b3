//! Language backends ("Riders") and the choice of tools from those found
//! on the machine.
use vstd::prelude::*;
use crate::paths;
use crate::text;

verus! {

#[derive(Clone, Copy, Debug, PartialEq, Eq, Structural)]
pub enum RiderKind {
    C,
    Cpp,
    Rust,
    Go,
    Java,
    CSharp,
    Swift,
    Zig,
    Python,
    JavaScript,
    TypeScript,
    Kotlin,
}

/// A language backend: its name, what it does, and the source extensions
/// it takes.
#[derive(Clone, Debug)]
pub struct Rider {
    pub name: String,
    pub kind: RiderKind,
    pub description: String,
    pub extensions: Vec<String>,
}

/// The Riders in the order they are listed and searched.
pub open spec fn rider_order() -> Seq<RiderKind> {
    seq![
        RiderKind::C,
        RiderKind::Cpp,
        RiderKind::Rust,
        RiderKind::Go,
        RiderKind::Java,
        RiderKind::CSharp,
        RiderKind::Swift,
        RiderKind::Zig,
        RiderKind::Python,
        RiderKind::JavaScript,
        RiderKind::TypeScript,
        RiderKind::Kotlin,
    ]
}

/// The source extensions of a Rider.
pub open spec fn rider_extensions(k: RiderKind) -> Seq<Seq<char>> {
    match k {
        RiderKind::C => seq!["c"@],
        RiderKind::Cpp => seq!["cpp"@, "cc"@, "cxx"@],
        RiderKind::Rust => seq!["rs"@],
        RiderKind::Go => seq!["go"@],
        RiderKind::Java => seq!["java"@],
        RiderKind::CSharp => seq!["cs"@],
        RiderKind::Swift => seq!["swift"@],
        RiderKind::Zig => seq!["zig"@],
        RiderKind::Python => seq!["py"@],
        RiderKind::JavaScript => seq!["js"@, "jsx"@],
        RiderKind::TypeScript => seq!["ts"@, "tsx"@],
        RiderKind::Kotlin => seq!["kt"@, "kts"@],
    }
}

/// The name and description of a Rider.
pub open spec fn rider_label(k: RiderKind) -> (Seq<char>, Seq<char>) {
    match k {
        RiderKind::C => ("C Rider"@, "Builds C executables, static libraries, and shared libraries."@),
        RiderKind::Cpp => ("C++ Rider"@, "Builds C++ executables, static libraries, and shared libraries."@),
        RiderKind::Rust => ("Rust Rider"@, "Builds basic Rust executables and libraries through rustc."@),
        RiderKind::Go => ("Go Rider"@, "Builds Go executables through the Go toolchain."@),
        RiderKind::Java => ("Java Rider"@, "Builds Java archives through javac and jar."@),
        RiderKind::CSharp => ("C# Rider"@, "Builds C# executables through csc or mcs."@),
        RiderKind::Swift => ("Swift Rider"@, "Builds Swift executables through swiftc."@),
        RiderKind::Zig => ("Zig Rider"@, "Builds Zig executables through zig."@),
        RiderKind::Python => ("Python Rider"@, "Checks and packages Python scripts through Python."@),
        RiderKind::JavaScript => ("JavaScript Rider"@, "Checks and packages JavaScript through Node.js."@),
        RiderKind::TypeScript => ("TypeScript Rider"@, "Transpiles TypeScript through tsc."@),
        RiderKind::Kotlin => ("Kotlin Rider"@, "Builds Kotlin archives through kotlinc."@),
    }
}

/// Whether a table lists the Riders in order with their names,
/// descriptions and extensions.
pub open spec fn is_rider_table(riders: Seq<Rider>) -> bool {
    &&& riders.len() == rider_order().len()
    &&& forall|i: int|
        0 <= i < riders.len() ==> (#[trigger] riders[i]).kind == rider_order()[i] && text::views(
            riders[i].extensions@,
        ) == rider_extensions(rider_order()[i]) && (riders[i].name@, riders[i].description@) == rider_label(rider_order()[i])
}

fn rider(name: &str, kind: RiderKind, description: &str, extensions: Vec<String>) -> (r: Rider)
    ensures
        r.name@ == name@,
        r.kind == kind,
        r.description@ == description@,
        r.extensions == extensions,
{
    Rider { name: text::owned(name), kind, description: text::owned(description), extensions }
}

fn texts1(a: &str) -> (r: Vec<String>)
    ensures
        text::views(r@) == seq![a@],
{
    let mut r: Vec<String> = Vec::new();
    r.push(text::owned(a));
    assert(text::views(r@) == seq![a@]);
    r
}

fn texts2(a: &str, b: &str) -> (r: Vec<String>)
    ensures
        text::views(r@) == seq![a@, b@],
        r@.len() == 2,
{
    let mut r: Vec<String> = Vec::new();
    r.push(text::owned(a));
    r.push(text::owned(b));
    assert(text::views(r@) == seq![a@, b@]);
    r
}

fn texts3(a: &str, b: &str, c: &str) -> (r: Vec<String>)
    ensures
        text::views(r@) == seq![a@, b@, c@],
        r@.len() == 3,
{
    let mut r: Vec<String> = Vec::new();
    r.push(text::owned(a));
    r.push(text::owned(b));
    r.push(text::owned(c));
    assert(text::views(r@) == seq![a@, b@, c@]);
    r
}

/// Every Rider built into Nox.
pub fn available() -> (r: Vec<Rider>)
    ensures
        is_rider_table(r@),
{
    let mut r: Vec<Rider> = Vec::new();
    r.push(rider("C Rider", RiderKind::C, "Builds C executables, static libraries, and shared libraries.", texts1("c")));
    r.push(rider("C++ Rider", RiderKind::Cpp, "Builds C++ executables, static libraries, and shared libraries.", texts3("cpp", "cc", "cxx")));
    r.push(rider("Rust Rider", RiderKind::Rust, "Builds basic Rust executables and libraries through rustc.", texts1("rs")));
    r.push(rider("Go Rider", RiderKind::Go, "Builds Go executables through the Go toolchain.", texts1("go")));
    r.push(rider("Java Rider", RiderKind::Java, "Builds Java archives through javac and jar.", texts1("java")));
    r.push(rider("C# Rider", RiderKind::CSharp, "Builds C# executables through csc or mcs.", texts1("cs")));
    r.push(rider("Swift Rider", RiderKind::Swift, "Builds Swift executables through swiftc.", texts1("swift")));
    r.push(rider("Zig Rider", RiderKind::Zig, "Builds Zig executables through zig.", texts1("zig")));
    r.push(rider("Python Rider", RiderKind::Python, "Checks and packages Python scripts through Python.", texts1("py")));
    r.push(rider("JavaScript Rider", RiderKind::JavaScript, "Checks and packages JavaScript through Node.js.", texts2("js", "jsx")));
    r.push(rider("TypeScript Rider", RiderKind::TypeScript, "Transpiles TypeScript through tsc.", texts2("ts", "tsx")));
    r.push(rider("Kotlin Rider", RiderKind::Kotlin, "Builds Kotlin archives through kotlinc.", texts2("kt", "kts")));
    assert(r@.len() == 12);
    r
}

/// The Rider that builds a source file, chosen by its extension.
pub fn for_source(source: &str) -> (r: Option<Rider>)
    ensures
        r matches Some(found) ==> paths::extension(source@) matches Some(e) && text::views(found.extensions@).contains(e)
            && (exists|i: int|
                0 <= i < 12 && found.kind == rider_order()[i] && rider_extensions(rider_order()[i]).contains(e)
                    && text::views(found.extensions@) == rider_extensions(rider_order()[i])
                    && (found.name@, found.description@) == rider_label(rider_order()[i]) && forall|j: int|
                    0 <= j < i ==> !(#[trigger] rider_extensions(rider_order()[j])).contains(e)),
        r is None ==> match paths::extension(source@) {
            Some(e) => forall|i: int| 0 <= i < 12 ==> !(#[trigger] rider_extensions(rider_order()[i])).contains(e),
            None => true,
        },
{
    let extension = match paths::extension_of(source) {
        Some(e) => e,
        None => return None,
    };
    let riders = available();
    let mut i: usize = 0;
    while i < riders.len()
        invariant
            i <= riders@.len(),
            is_rider_table(riders@),
            paths::extension(source@) == Some(extension@),
            forall|j: int| 0 <= j < i ==> !(#[trigger] rider_extensions(rider_order()[j])).contains(extension@),
        decreases riders@.len() - i,
    {
        let mut k: usize = 0;
        while k < riders[i].extensions.len()
            invariant
                i < riders@.len(),
                is_rider_table(riders@),
                paths::extension(source@) == Some(extension@),
                forall|j: int| 0 <= j < i ==> !(#[trigger] rider_extensions(rider_order()[j])).contains(extension@),
                k <= riders@[i as int].extensions@.len(),
                forall|m: int| 0 <= m < k ==> riders@[i as int].extensions@[m]@ != extension@,
            decreases riders@[i as int].extensions@.len() - k,
        {
            if text::same(riders[i].extensions[k].as_str(), extension.as_str()) {
                assert(text::views(riders@[i as int].extensions@)[k as int] == extension@);
                let found = riders[i].clone_rider();
                assert(text::views(found.extensions@).contains(extension@));
                assert(found.kind == rider_order()[i as int]);
                assert(riders@.len() == 12);
                let ghost w = i as int;
                assert(0 <= w < 12 && found.kind == rider_order()[w] && rider_extensions(rider_order()[w]).contains(extension@)
                    && text::views(found.extensions@) == rider_extensions(rider_order()[w])
                    && (found.name@, found.description@) == rider_label(rider_order()[w]) && forall|j: int|
                    0 <= j < w ==> !(#[trigger] rider_extensions(rider_order()[j])).contains(extension@));
                return Some(found);
            }
            k = k + 1;
        }
        proof {
            if text::views(riders@[i as int].extensions@).contains(extension@) {
                let m = choose|m: int| 0 <= m < text::views(riders@[i as int].extensions@).len() && text::views(riders@[i as int].extensions@)[m] == extension@;
                assert(riders@[i as int].extensions@[m]@ == extension@);
            }
        }
        i = i + 1;
    }
    None
}

impl Rider {
    /// A copy of the Rider.
    pub fn clone_rider(&self) -> (r: Rider)
        ensures
            r.name@ == self.name@,
            r.kind == self.kind,
            r.description@ == self.description@,
            text::views(r.extensions@) == text::views(self.extensions@),
    {
        let mut list: Vec<String> = Vec::new();
        let mut i: usize = 0;
        while i < self.extensions.len()
            invariant
                i <= self.extensions@.len(),
                text::views(list@) == text::views(self.extensions@.take(i as int)),
            decreases self.extensions@.len() - i,
        {
            let ghost before = list@;
            list.push(self.extensions[i].clone());
            assert(text::views(list@) == text::views(before).push(self.extensions@[i as int]@));
            assert(self.extensions@.take(i + 1) == self.extensions@.take(i as int).push(self.extensions@[i as int]));
            i = i + 1;
        }
        assert(self.extensions@.take(self.extensions@.len() as int) == self.extensions@);
        Rider { name: self.name.clone(), kind: self.kind, description: self.description.clone(), extensions: list }
    }
}

/// The index of the first available program from `i` on.
pub open spec fn first_available(available: Seq<bool>, i: int) -> Option<int>
    decreases available.len() - i,
{
    if i < 0 || i >= available.len() {
        None
    } else if available[i] {
        Some(i)
    } else {
        first_available(available, i + 1)
    }
}

/// The program chosen among candidates: the first available one, or the
/// first candidate when none is.
pub open spec fn chosen(programs: Seq<Seq<char>>, available: Seq<bool>) -> Seq<char> {
    match first_available(available, 0) {
        Some(i) => programs[i],
        None => programs[0],
    }
}

/// The first program that is available, or the first program when none
/// is.
pub fn find(programs: &Vec<String>, available: &Vec<bool>) -> (r: String)
    requires
        programs@.len() > 0,
        available@.len() == programs@.len(),
    ensures
        r@ == chosen(text::views(programs@), available@),
{
    let mut i: usize = 0;
    while i < programs.len()
        invariant
            i <= programs@.len(),
            available@.len() == programs@.len(),
            first_available(available@, 0) == first_available(available@, i as int),
        decreases programs@.len() - i,
    {
        if available[i] {
            return programs[i].clone();
        }
        i = i + 1;
    }
    programs[0].clone()
}

/// The first program that is available, if any.
pub fn require(programs: &Vec<String>, available: &Vec<bool>) -> (r: Option<String>)
    requires
        available@.len() == programs@.len(),
    ensures
        r matches Some(p) ==> exists|i: int|
            0 <= i < programs@.len() && available@[i] && p@ == programs@[i]@ && forall|j: int| 0 <= j < i ==> !available@[j],
        r is None ==> forall|i: int| 0 <= i < programs@.len() ==> !available@[i],
{
    let mut i: usize = 0;
    while i < programs.len()
        invariant
            i <= programs@.len(),
            available@.len() == programs@.len(),
            forall|j: int| 0 <= j < i ==> !available@[j],
        decreases programs@.len() - i,
    {
        if available[i] {
            return Some(programs[i].clone());
        }
        i = i + 1;
    }
    None
}

/// The C compilers tried, in order.
pub fn c_compilers() -> (r: Vec<String>)
    ensures
        text::views(r@) == seq!["cc"@, "clang"@, "gcc"@],
        r@.len() == 3,
{
    let mut r: Vec<String> = Vec::new();
    r.push(text::owned("cc"));
    r.push(text::owned("clang"));
    r.push(text::owned("gcc"));
    assert(text::views(r@) == seq!["cc"@, "clang"@, "gcc"@]);
    r
}

/// The archivers tried, in order.
pub fn archivers() -> (r: Vec<String>)
    ensures
        text::views(r@) == seq!["ar"@, "llvm-ar"@],
        r@.len() == 2,
{
    let mut r: Vec<String> = Vec::new();
    r.push(text::owned("ar"));
    r.push(text::owned("llvm-ar"));
    assert(text::views(r@) == seq!["ar"@, "llvm-ar"@]);
    r
}

/// The C++ compilers tried, in order.
pub fn cpp_compilers() -> (r: Vec<String>)
    ensures
        text::views(r@) == seq!["c++"@, "clang++"@, "g++"@],
        r@.len() == 3,
{
    let mut r: Vec<String> = Vec::new();
    r.push(text::owned("c++"));
    r.push(text::owned("clang++"));
    r.push(text::owned("g++"));
    assert(text::views(r@) == seq!["c++"@, "clang++"@, "g++"@]);
    r
}

/// The C compiler, linker and archiver, given which of the candidates
/// (`c_compilers`, `archivers`) run on this machine; the linker is the
/// compiler.
pub fn detect_c(compilers_available: &Vec<bool>, archivers_available: &Vec<bool>) -> (r: (String, String, String))
    requires
        compilers_available@.len() == 3,
        archivers_available@.len() == 2,
    ensures
        r.0@ == chosen(seq!["cc"@, "clang"@, "gcc"@], compilers_available@),
        r.1@ == r.0@,
        r.2@ == chosen(seq!["ar"@, "llvm-ar"@], archivers_available@),
{
    let compiler = find(&c_compilers(), compilers_available);
    let linker = compiler.clone();
    let archiver = find(&archivers(), archivers_available);
    (compiler, linker, archiver)
}

/// The C++ compiler, given which of `cpp_compilers` run on this machine.
pub fn detect_cpp(available: &Vec<bool>) -> (r: String)
    requires
        available@.len() == 3,
    ensures
        r@ == chosen(seq!["c++"@, "clang++"@, "g++"@], available@),
{
    find(&cpp_compilers(), available)
}

} // verus!
