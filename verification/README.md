# nox

Nox is a build system: a project is described in a `nox.build` file,
targets are built through per-language riders, and `nox.build` files can be
generated from an existing source tree. This crate is its verified core,
written in Verus.

## Layout

- `src/` — the library, every function verified against its contract:
  - `project/` — the `nox.build` lexer and parser, specified by `lex_spec`
    and `parsed_projects`; values read from disk come in as resolver
    answers (`Resolver`, `next_request`).
  - `domain/` — the project model, target validation and the depth-first
    dependency order (`depth_first_order`).
  - `build_system/` — build plans, compile and link commands, saved build
    state and rebuild decisions.
  - `noml.rs` — the NOML document language: a grammar spec over characters
    (`value_at`, `parsed_document`), extension resolution and the writer.
  - `rules/` — the built-in command, argument and `nox init` rules.
  - `init/` — scanning a source tree and generating `nox.build` and
    starter files.
  - `cli/` — command-line parsing, command dispatch, versions and updates.
  - `run.rs`, `task.rs`, `toolchain.rs`, `paths.rs`, `text.rs` — running
    files, noxfile tasks, riders, path text and string helpers.
- `app/` — the program around the library: reading and writing files,
  running processes, the network and the terminal.
- `tests/` — tests of the library on concrete inputs.
