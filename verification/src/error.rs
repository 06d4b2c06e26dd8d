//! The failures of a run: a source that is no program, or input and output
//! that fail.

use crate::grammar::{ErrorKind, Failure};
use crate::parser::{Input, ParseError};
use vstd::prelude::*;
use vstd::string::StringExecFns;

verus! {

/// `std::io::Error`: carried through as it comes from the host or from std;
/// nothing is known of what it holds.
#[verifier::external_type_specification]
#[verifier::external_body]
pub struct ExIoError(std::io::Error);

/// Why a run ended without success.
#[derive(Debug)]
pub enum Error {
    /// Reading the input or writing the output failed.
    IOError(std::io::Error),
    /// The source is no program; the text says what was expected.
    ParseError(String),
}

/// What a parser's failure is called in an [`Error`]: what it expected, or
/// what it found.
pub open spec fn description(failure: Failure) -> Seq<char> {
    match failure {
        Failure::Incomplete(_) => "incomplete input"@,
        Failure::Error(_, ErrorKind::Tag) => "unexpected instruction"@,
        Failure::Error(_, ErrorKind::Alt) => "expected an instruction"@,
        Failure::Error(_, ErrorKind::ManyTill) => "unbalanced loop: expected `]`"@,
        Failure::Error(at, ErrorKind::Eof) => if at.len() == 0 {
            "unexpected end of input"@
        } else {
            "unbalanced loop: expected end of input"@
        },
    }
}

impl From<std::io::Error> for Error {
    /// The failure of input or output, kept as it is.
    fn from(err: std::io::Error) -> (error: Error)
        ensures
            error == Error::IOError(err),
    {
        Error::IOError(err)
    }
}

impl vstd::std_specs::convert::FromSpecImpl<std::io::Error> for Error {
    open spec fn obeys_from_spec() -> bool {
        true
    }

    open spec fn from_spec(err: std::io::Error) -> Error {
        Error::IOError(err)
    }
}

impl<T: Input> From<ParseError<T>> for Error {
    /// The failure of a parser, by its description.
    fn from(err: ParseError<T>) -> (error: Error)
        ensures
            error matches Error::ParseError(text) && text@ == description(err@),
    {
        let text = match err {
            ParseError::Incomplete(_) => "incomplete input",
            ParseError::Error(_, ErrorKind::Tag) => "unexpected instruction",
            ParseError::Error(_, ErrorKind::Alt) => "expected an instruction",
            ParseError::Error(_, ErrorKind::ManyTill) => "unbalanced loop: expected `]`",
            ParseError::Error(at, ErrorKind::Eof) => if at.input_len() == 0 {
                "unexpected end of input"
            } else {
                "unbalanced loop: expected end of input"
            },
        };
        Error::ParseError(String::from_str(text))
    }
}

impl<T: Input> vstd::std_specs::convert::FromSpecImpl<ParseError<T>> for Error {
    open spec fn obeys_from_spec() -> bool {
        false
    }

    open spec fn from_spec(err: ParseError<T>) -> Error {
        arbitrary()
    }
}

impl Error {
    /// The error as a line of text: the kind of failure, a colon, and what
    /// failed.
    pub fn to_string(&self) -> (text: String)
        ensures
            match self {
                Error::ParseError(what) => text@ == "Parse Error: "@ + what@,
                Error::IOError(_) => "IO Error: "@.is_prefix_of(text@),
            },
    {
        match self {
            Error::ParseError(what) => String::from_str("Parse Error: ").concat(what.as_str()),
            Error::IOError(err) => String::from_str("IO Error: ").concat(err.to_string().as_str()),
        }
    }
}

/// `std::io::Error::from` on `ErrorKind::UnexpectedEof`: the error that std's
/// readers give when the stream ends before the bytes asked for have come.
/// Nothing is claimed of the value.
#[verifier::external_body]
pub(crate) fn unexpected_eof() -> std::io::Error {
    std::io::Error::from(std::io::ErrorKind::UnexpectedEof)
}

} // verus!
