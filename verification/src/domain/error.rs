//! The error type shared by the build-system modules.
use vstd::prelude::*;
use crate::text;

verus! {

/// What can go wrong while reading, validating, or building a project.
/// I/O errors carry the message of the failed operation.
#[derive(Clone, Debug, PartialEq, Eq)]
pub enum Error {
    Io(String),
    Parse(String),
    Config(String),
    Process(String),
    Exit(i32),
}

/// The text that a displayed error shows.
pub open spec fn error_text(e: Error) -> Seq<char> {
    match e {
        Error::Io(m) => m@,
        Error::Parse(m) => "parse error: "@ + m@,
        Error::Config(m) => "configuration error: "@ + m@,
        Error::Process(m) => "process error: "@ + m@,
        Error::Exit(code) => "process exited with status "@ + signed_decimal(code as int),
    }
}

pub open spec fn signed_decimal(n: int) -> Seq<char> {
    if n < 0 {
        seq!['-'] + text::decimal((-n) as nat)
    } else {
        text::decimal(n as nat)
    }
}

pub fn i32_to_string(n: i32) -> (r: String)
    ensures
        r@ == signed_decimal(n as int),
{
    if n < 0 {
        let magnitude: u64 = (-(n as i64)) as u64;
        let digits = text::u64_to_string(magnitude);
        proof {
            reveal_strlit("-");
        }
        text::concat("-", digits.as_str())
    } else {
        text::u64_to_string(n as u64)
    }
}

impl Error {
    /// The message of the error as the command line reports it.
    pub fn to_string(&self) -> (r: String)
        ensures
            r@ == error_text(*self),
    {
        match self {
            Error::Io(m) => m.clone(),
            Error::Parse(m) => text::concat("parse error: ", m.as_str()),
            Error::Config(m) => text::concat("configuration error: ", m.as_str()),
            Error::Process(m) => text::concat("process error: ", m.as_str()),
            Error::Exit(code) => {
                let digits = i32_to_string(*code);
                text::concat("process exited with status ", digits.as_str())
            },
        }
    }
}

} // verus!
