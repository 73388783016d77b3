//! The files that `nox init` writes besides `nox.build`.
use vstd::prelude::*;
use crate::text;
use crate::init::language::{Language, ProjectType};

verus! {

/// The starter source file of a new project: its path and contents.
pub open spec fn starter_file(l: Language, t: ProjectType) -> (Seq<char>, Seq<char>) {
    match l {
        Language::Rust => if t == ProjectType::Library {
            ("src/lib.rs"@, "pub fn run() {}\n"@)
        } else {
            ("src/main.rs"@, "fn main() {}\n"@)
        },
        Language::Haskell => ("app/Main.hs"@, "module Main where\n\nmain :: IO ()\nmain = putStrLn \"hello from Nox\"\n"@),
        Language::C => ("src/main.c"@, "#include <stdio.h>\n\nint main(void) {\n    puts(\"hello from Nox\");\n    return 0;\n}\n"@),
        Language::Cpp => ("src/main.cpp"@, "#include <iostream>\n\nint main() {\n    std::cout << \"hello from Nox\\n\";\n}\n"@),
        Language::D => ("src/main.d"@, "import std.stdio;\n\nvoid main() {\n    writeln(\"hello from Nox\");\n}\n"@),
        Language::Swift => ("Sources/main.swift"@, "print(\"hello from Nox\")\n"@),
        Language::JavaScript => ("src/index.js"@, "console.log(\"hello from Nox\");\n"@),
        Language::TypeScript => ("src/index.ts"@, "console.log(\"hello from Nox\");\n"@),
        Language::Python => ("src/main.py"@, "print(\"hello from Nox\")\n"@),
        Language::FSharp => ("src/main.fsx"@, "printfn \"hello from Nox\"\n"@),
        Language::Unknown => ("src/main.c"@, "int main(void) { return 0; }\n"@),
    }
}

/// The starter source file of a new project.
pub fn starter(language: Language, project_type: ProjectType) -> (r: (&'static str, &'static str))
    ensures
        (r.0@, r.1@) == starter_file(language, project_type),
{
    match language {
        Language::Rust => if project_type == ProjectType::Library {
            ("src/lib.rs", "pub fn run() {}\n")
        } else {
            ("src/main.rs", "fn main() {}\n")
        },
        Language::Haskell => ("app/Main.hs", "module Main where\n\nmain :: IO ()\nmain = putStrLn \"hello from Nox\"\n"),
        Language::C => ("src/main.c", "#include <stdio.h>\n\nint main(void) {\n    puts(\"hello from Nox\");\n    return 0;\n}\n"),
        Language::Cpp => ("src/main.cpp", "#include <iostream>\n\nint main() {\n    std::cout << \"hello from Nox\\n\";\n}\n"),
        Language::D => ("src/main.d", "import std.stdio;\n\nvoid main() {\n    writeln(\"hello from Nox\");\n}\n"),
        Language::Swift => ("Sources/main.swift", "print(\"hello from Nox\")\n"),
        Language::JavaScript => ("src/index.js", "console.log(\"hello from Nox\");\n"),
        Language::TypeScript => ("src/index.ts", "console.log(\"hello from Nox\");\n"),
        Language::Python => ("src/main.py", "print(\"hello from Nox\")\n"),
        Language::FSharp => ("src/main.fsx", "printfn \"hello from Nox\"\n"),
        Language::Unknown => ("src/main.c", "int main(void) { return 0; }\n"),
    }
}

/// The Nix packages of a language's development shell.
pub open spec fn flake_packages(l: Language) -> Seq<char> {
    match l {
        Language::Rust => "rustc cargo rustfmt"@,
        Language::Haskell => "ghc cabal-install fourmolu"@,
        Language::C | Language::Cpp => "clang clang-tools"@,
        Language::D => "ldc"@,
        Language::Swift => "swift"@,
        Language::JavaScript => "nodejs"@,
        Language::TypeScript => "nodejs nodePackages.typescript"@,
        Language::Python => "python3"@,
        Language::FSharp => "dotnet-sdk"@,
        Language::Unknown => "clang"@,
    }
}

fn flake_package_list(l: Language) -> (r: &'static str)
    ensures
        r@ == flake_packages(l),
{
    match l {
        Language::Rust => "rustc cargo rustfmt",
        Language::Haskell => "ghc cabal-install fourmolu",
        Language::C | Language::Cpp => "clang clang-tools",
        Language::D => "ldc",
        Language::Swift => "swift",
        Language::JavaScript => "nodejs",
        Language::TypeScript => "nodejs nodePackages.typescript",
        Language::Python => "python3",
        Language::FSharp => "dotnet-sdk",
        Language::Unknown => "clang",
    }
}

/// `flake.nix`: a development shell with Nox and the language's tools.
pub open spec fn flake_text(l: Language, formatter_enabled: bool) -> Seq<char> {
    "{\n  inputs.nixpkgs.url = \"github:NixOS/nixpkgs/nixpkgs-unstable\";\n  outputs = { nixpkgs, ... }: let\n    systems = [ \"x86_64-linux\" \"aarch64-linux\" \"x86_64-darwin\" \"aarch64-darwin\" ];\n  in {\n    devShells = builtins.listToAttrs (map (system: { name = system; value = nixpkgs.legacyPackages.${system}.mkShell { packages = with nixpkgs.legacyPackages.${system}; [ nox "@
        + flake_packages(l) + (if formatter_enabled { " nixfmt-rfc-style"@ } else { ""@ })
        + " ]; }; }) systems);\n  };\n}\n"@
}

/// The text of `flake.nix`.
pub fn flake(language: Language, formatter_enabled: bool) -> (r: String)
    ensures
        r@ == flake_text(language, formatter_enabled),
{
    let mut r = text::owned("{\n  inputs.nixpkgs.url = \"github:NixOS/nixpkgs/nixpkgs-unstable\";\n  outputs = { nixpkgs, ... }: let\n    systems = [ \"x86_64-linux\" \"aarch64-linux\" \"x86_64-darwin\" \"aarch64-darwin\" ];\n  in {\n    devShells = builtins.listToAttrs (map (system: { name = system; value = nixpkgs.legacyPackages.${system}.mkShell { packages = with nixpkgs.legacyPackages.${system}; [ nox ");
    text::push_str(&mut r, flake_package_list(language));
    text::push_str(&mut r, if formatter_enabled { " nixfmt-rfc-style" } else { "" });
    text::push_str(&mut r, " ]; }; }) systems);\n  };\n}\n");
    r
}

/// The formatter configuration file of a language: its path and contents.
pub open spec fn formatter_file(l: Language) -> Option<(Seq<char>, Seq<char>)> {
    match l {
        Language::Rust => Some(("rustfmt.toml"@, "edition = \"2024\"\n"@)),
        Language::Haskell => Some(("fourmolu.yaml"@, "indentation: 2\n"@)),
        Language::C | Language::Cpp => Some((".clang-format"@, "BasedOnStyle: LLVM\nIndentWidth: 4\n"@)),
        Language::JavaScript | Language::TypeScript => Some((".prettierrc"@, "{\n  \"semi\": true,\n  \"singleQuote\": false\n}\n"@)),
        Language::Swift => Some((".swift-format"@, "{\n  \"indentation\": { \"spaces\": 4 }\n}\n"@)),
        _ => None,
    }
}

/// The formatter configuration file of a language, if it has one.
pub fn formatter(language: Language) -> (r: Option<(&'static str, &'static str)>)
    ensures
        match r {
            Some((path, contents)) => formatter_file(language) == Some((path@, contents@)),
            None => formatter_file(language) is None,
        },
{
    match language {
        Language::Rust => Some(("rustfmt.toml", "edition = \"2024\"\n")),
        Language::Haskell => Some(("fourmolu.yaml", "indentation: 2\n")),
        Language::C | Language::Cpp => Some((".clang-format", "BasedOnStyle: LLVM\nIndentWidth: 4\n")),
        Language::JavaScript | Language::TypeScript => Some((".prettierrc", "{\n  \"semi\": true,\n  \"singleQuote\": false\n}\n")),
        Language::Swift => Some((".swift-format", "{\n  \"indentation\": { \"spaces\": 4 }\n}\n")),
        _ => None,
    }
}

/// The Nix package of a language's formatter.
pub open spec fn formatter_package(l: Language) -> Seq<char> {
    match l {
        Language::Rust => "rustfmt"@,
        Language::Haskell => "fourmolu"@,
        Language::C | Language::Cpp => "clang-tools"@,
        Language::JavaScript | Language::TypeScript => "nodePackages.prettier"@,
        Language::Swift => "swift-format"@,
        _ => "nixfmt-rfc-style"@,
    }
}

fn formatter_package_name(l: Language) -> (r: &'static str)
    ensures
        r@ == formatter_package(l),
{
    match l {
        Language::Rust => "rustfmt",
        Language::Haskell => "fourmolu",
        Language::C | Language::Cpp => "clang-tools",
        Language::JavaScript | Language::TypeScript => "nodePackages.prettier",
        Language::Swift => "swift-format",
        _ => "nixfmt-rfc-style",
    }
}

/// `nix/formatter.nix`: a shell application with the language's formatter.
pub open spec fn nix_formatter_text(l: Language) -> Seq<char> {
    "{ pkgs }: pkgs.writeShellApplication {\n  name = \"project-format\";\n  runtimeInputs = [ pkgs."@
        + formatter_package(l) + " ];\n  text = \"true\";\n}\n"@
}

/// The text of `nix/formatter.nix`.
pub fn nix_formatter(language: Language) -> (r: String)
    ensures
        r@ == nix_formatter_text(language),
{
    let mut r = text::owned("{ pkgs }: pkgs.writeShellApplication {\n  name = \"project-format\";\n  runtimeInputs = [ pkgs.");
    text::push_str(&mut r, formatter_package_name(language));
    text::push_str(&mut r, " ];\n  text = \"true\";\n}\n");
    r
}

/// The command of the generated `format` task.
pub open spec fn format_command(l: Language) -> Seq<char> {
    match l {
        Language::Rust => "cargo fmt --all"@,
        Language::C | Language::Cpp => "clang-format -i $(find src -type f)"@,
        Language::JavaScript | Language::TypeScript => "npx prettier --write ."@,
        _ => "true"@,
    }
}

fn format_command_of(l: Language) -> (r: &'static str)
    ensures
        r@ == format_command(l),
{
    match l {
        Language::Rust => "cargo fmt --all",
        Language::C | Language::Cpp => "clang-format -i $(find src -type f)",
        Language::JavaScript | Language::TypeScript => "npx prettier --write .",
        _ => "true",
    }
}

/// `noxfile`: format, check, build and test tasks.
pub open spec fn noxfile_text(l: Language) -> Seq<char> {
    "tasks:\n    format:\n        run: "@ + format_command(l)
        + "\n    check:\n        run: nox validate\n    build:\n        @nox check\n        run: nox build\n    test:\n        @nox build\n        run: true\n"@
}

/// The text of `noxfile`.
pub fn noxfile(language: Language) -> (r: String)
    ensures
        r@ == noxfile_text(language),
{
    let mut r = text::owned("tasks:\n    format:\n        run: ");
    text::push_str(&mut r, format_command_of(language));
    text::push_str(&mut r, "\n    check:\n        run: nox validate\n    build:\n        @nox check\n        run: nox build\n    test:\n        @nox build\n        run: true\n");
    r
}

/// `README.md`: the project's name and how to build it.
pub open spec fn readme_text(name: Seq<char>, nix: bool) -> Seq<char> {
    "# "@ + name + "\n\nA project built and automated with Nox.\n\n## Build\n\n```sh\nnox setup\nnox build\n```\n"@
        + (if nix { "\nWith Nix installed, enter the development environment with `nix develop`.\n"@ } else { ""@ })
}

/// The text of `README.md`.
pub fn readme(name: &str, nix: bool) -> (r: String)
    ensures
        r@ == readme_text(name@, nix),
{
    let mut r = text::owned("# ");
    text::push_str(&mut r, name);
    text::push_str(&mut r, "\n\nA project built and automated with Nox.\n\n## Build\n\n```sh\nnox setup\nnox build\n```\n");
    text::push_str(&mut r, if nix { "\nWith Nix installed, enter the development environment with `nix develop`.\n" } else { "" });
    r
}

/// `.gitignore`: the language's build outputs.
pub open spec fn gitignore_text(l: Language) -> Seq<char> {
    match l {
        Language::Rust => "target/\nbuild/\n"@,
        Language::Haskell => "dist-newstyle/\nbuild/\n"@,
        Language::JavaScript | Language::TypeScript => "node_modules/\ndist/\n"@,
        _ => "build/\n"@,
    }
}

/// The text of `.gitignore`.
pub fn gitignore(language: Language) -> (r: &'static str)
    ensures
        r@ == gitignore_text(language),
{
    match language {
        Language::Rust => "target/\nbuild/\n",
        Language::Haskell => "dist-newstyle/\nbuild/\n",
        Language::JavaScript | Language::TypeScript => "node_modules/\ndist/\n",
        _ => "build/\n",
    }
}

/// `Package.swift`: an executable target named after the project, and a
/// library product for libraries.
pub open spec fn swift_manifest_text(name: Seq<char>, t: ProjectType) -> Seq<char> {
    let product = if t == ProjectType::Library {
        "products: [.library(name: \""@ + name + "\", targets: [\""@ + name + "\"])],"@
    } else {
        ""@
    };
    "// swift-tools-version: 6.3\nimport PackageDescription\nlet package = Package(name: \""@ + name + "\", "@ + product
        + " targets: [.executableTarget(name: \""@ + name + "\", path: \"Sources\")])\n"@
}

/// The text of `Package.swift`.
pub fn swift_manifest(name: &str, project_type: ProjectType) -> (r: String)
    ensures
        r@ == swift_manifest_text(name@, project_type),
{
    let product = if project_type == ProjectType::Library {
        let mut p = text::owned("products: [.library(name: \"");
        text::push_str(&mut p, name);
        text::push_str(&mut p, "\", targets: [\"");
        text::push_str(&mut p, name);
        text::push_str(&mut p, "\"])],");
        p
    } else {
        text::owned("")
    };
    let mut r = text::owned("// swift-tools-version: 6.3\nimport PackageDescription\nlet package = Package(name: \"");
    text::push_str(&mut r, name);
    text::push_str(&mut r, "\", ");
    text::push_str(&mut r, product.as_str());
    text::push_str(&mut r, " targets: [.executableTarget(name: \"");
    text::push_str(&mut r, name);
    text::push_str(&mut r, "\", path: \"Sources\")])\n");
    r
}

} // verus!
