//! What can go wrong while initializing a project.
use vstd::prelude::*;
use crate::text;

verus! {

/// An error of `nox init`. I/O errors carry the message of the failed
/// operation.
#[derive(Clone, Debug, PartialEq, Eq)]
pub enum Error {
    Io(String),
    InvalidDirectory(String),
    UnsupportedLanguage(String),
    Configuration(String),
    Generation(String),
}

/// The text that a displayed error shows.
pub open spec fn error_text(e: Error) -> Seq<char> {
    match e {
        Error::Io(m) => m@,
        Error::InvalidDirectory(m) => "invalid project directory: "@ + m@,
        Error::UnsupportedLanguage(l) => "unsupported language '"@ + l@ + "'"@,
        Error::Configuration(m) => "configuration error: "@ + m@,
        Error::Generation(m) => "build generation failed: "@ + m@,
    }
}

impl Error {
    /// The message of the error.
    pub fn to_string(&self) -> (r: String)
        ensures
            r@ == error_text(*self),
    {
        match self {
            Error::Io(m) => text::owned(m.as_str()),
            Error::InvalidDirectory(m) => text::concat("invalid project directory: ", m.as_str()),
            Error::UnsupportedLanguage(l) => {
                let mut r = text::owned("unsupported language '");
                text::push_str(&mut r, l.as_str());
                text::push_str(&mut r, "'");
                r
            },
            Error::Configuration(m) => text::concat("configuration error: ", m.as_str()),
            Error::Generation(m) => text::concat("build generation failed: ", m.as_str()),
        }
    }

    /// The error as a configuration error of the build system.
    pub fn into_core(self) -> (r: crate::domain::error::Error)
        ensures
            r matches crate::domain::error::Error::Config(m) && m@ == error_text(self),
    {
        crate::domain::error::Error::Config(self.to_string())
    }
}

} // verus!
