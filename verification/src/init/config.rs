//! The options of `nox init`.
use vstd::prelude::*;

verus! {

/// What `nox init` was asked for.
#[derive(Clone, Debug)]
pub struct Options {
    /// The positional project name (also the directory to create).
    pub project_name: Option<String>,
    /// `--name`.
    pub name: Option<String>,
    pub language: Option<String>,
    pub project_type: Option<String>,
    pub template: Option<String>,
    /// Whether to write a Nix flake.
    pub nix: bool,
    /// Whether to write a formatter configuration.
    pub formatter: bool,
    /// Whether to write a `noxfile`.
    pub noxfile: bool,
}

impl Default for Options {
    fn default() -> (r: Options)
        ensures
            r.project_name is None,
            r.name is None,
            r.language is None,
            r.project_type is None,
            r.template is None,
            r.nix,
            !r.formatter,
            r.noxfile,
    {
        Options {
            project_name: None,
            name: None,
            language: None,
            project_type: None,
            template: None,
            nix: true,
            formatter: false,
            noxfile: true,
        }
    }
}

} // verus!
