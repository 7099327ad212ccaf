//! The error hierarchy of the library and the text that each error reads as.
use vstd::prelude::*;
use vstd::string::StringExecFns;

use crate::text::decimal_i32;
use crate::text::spec_decimal_i32;

verus! {

/// `std::io::Error`, carried through as the cause of a failed process launch.
#[verifier::external_type_specification]
#[verifier::external_body]
pub struct ExIoError(std::io::Error);

/// `std::string::FromUtf8Error`, carried through as the cause of undecodable output.
#[verifier::external_type_specification]
#[verifier::external_body]
pub struct ExFromUtf8Error(std::string::FromUtf8Error);

/// Everything that can go wrong while asking winget for upgrades.
#[derive(Debug)]
pub enum WingetError {
    /// The winget process could not be started.
    Process(std::io::Error),
    /// winget ran but reported failure.
    CommandFailed { code: Option<i32>, stderr: String },
    /// winget's standard output is not UTF-8.
    Utf8(std::string::FromUtf8Error),
    /// winget's output could not be read as an upgrade table.
    Parse(ParseWingetError),
}

/// Why the text of `winget upgrade` could not be read as a table.
#[derive(Debug)]
pub enum ParseWingetError {
    /// The header line lacks one of the column names.
    HeaderParseFailed,
    /// A row names a source other than `winget` or `msstore`.
    InvalidSource(ParsePackageSourceError),
}

/// A source column holding something other than `winget` or `msstore`.
#[derive(Debug, PartialEq, Eq)]
pub struct ParsePackageSourceError {
    /// The (trimmed) text of the source column.
    pub input: String,
}

/// The model of a `ParseWingetError`: which failure, and for a bad source its text.
pub enum ParseFailure {
    HeaderParseFailed,
    InvalidSource(Seq<char>),
}

impl View for ParseWingetError {
    type V = ParseFailure;

    open spec fn view(&self) -> ParseFailure {
        match self {
            ParseWingetError::HeaderParseFailed => ParseFailure::HeaderParseFailed,
            ParseWingetError::InvalidSource(e) => ParseFailure::InvalidSource(e.input@),
        }
    }
}

/// The text of a `ParsePackageSourceError`.
pub open spec fn source_error_text(input: Seq<char>) -> Seq<char> {
    "unexpected package source value: '"@ + input + "'"@
}

/// The text of a `ParseWingetError` with the given model.
pub open spec fn parse_error_text(e: ParseFailure) -> Seq<char> {
    match e {
        ParseFailure::HeaderParseFailed => "could not determine column positions from header line"@,
        ParseFailure::InvalidSource(input) => "invalid package source: "@ + source_error_text(input),
    }
}

/// How `{:?}` shows an `Option<i32>`.
pub open spec fn debug_option_i32(code: Option<i32>) -> Seq<char> {
    match code {
        Some(c) => "Some("@ + spec_decimal_i32(c) + ")"@,
        None => "None"@,
    }
}

impl ParsePackageSourceError {
    /// The error's message.
    pub fn message(&self) -> (r: String)
        ensures
            r@ == source_error_text(self.input@),
    {
        let mut r = "unexpected package source value: '".to_owned();
        r.append(self.input.as_str());
        r.append("'");
        r
    }
}

impl ParseWingetError {
    /// The error's message.
    pub fn message(&self) -> (r: String)
        ensures
            r@ == parse_error_text(self@),
    {
        match self {
            ParseWingetError::HeaderParseFailed => {
                "could not determine column positions from header line".to_owned()
            },
            ParseWingetError::InvalidSource(e) => {
                let mut r = "invalid package source: ".to_owned();
                let inner = e.message();
                r.append(inner.as_str());
                r
            },
        }
    }
}

/// `text` is the message of `e`: fixed text and the fields of the error, where
/// for the two variants that carry an error of std the cause is the text that
/// std's `to_string` gives for that error.
pub open spec fn is_error_message(e: WingetError, text: Seq<char>) -> bool {
    match e {
        WingetError::Process(io) => exists|cause: String|
            vstd::string::to_string_from_display_ensures::<std::io::Error>(&io, cause) && text
                == "failed to run winget process: "@ + cause@,
        WingetError::CommandFailed { code, stderr } => text == "winget exited unsuccessfully (code "@
            + debug_option_i32(code) + "): "@ + stderr@,
        WingetError::Utf8(u) => exists|cause: String|
            vstd::string::to_string_from_display_ensures::<std::string::FromUtf8Error>(&u, cause)
                && text == "winget output is not valid UTF-8: "@ + cause@,
        WingetError::Parse(p) => text == "failed to parse winget output: "@ + parse_error_text(p@),
    }
}

impl WingetError {
    /// The error's message.
    pub fn message(&self) -> (r: String)
        ensures
            is_error_message(*self, r@),
    {
        match self {
            WingetError::Process(e) => {
                let mut r = "failed to run winget process: ".to_owned();
                let cause = e.to_string();
                r.append(cause.as_str());
                assert(r@ =~= "failed to run winget process: "@ + cause@);
                r
            },
            WingetError::CommandFailed { code, stderr } => {
                let mut r = "winget exited unsuccessfully (code ".to_owned();
                match code {
                    Some(c) => {
                        r.append("Some(");
                        let digits = decimal_i32(*c);
                        r.append(digits.as_str());
                        r.append(")");
                    },
                    None => {
                        r.append("None");
                    },
                }
                r.append("): ");
                r.append(stderr.as_str());
                assert(r@ =~= "winget exited unsuccessfully (code "@ + debug_option_i32(*code) + "): "@
                    + stderr@);
                r
            },
            WingetError::Utf8(e) => {
                let mut r = "winget output is not valid UTF-8: ".to_owned();
                let cause = e.to_string();
                r.append(cause.as_str());
                assert(r@ =~= "winget output is not valid UTF-8: "@ + cause@);
                r
            },
            WingetError::Parse(e) => {
                let mut r = "failed to parse winget output: ".to_owned();
                let inner = e.message();
                r.append(inner.as_str());
                r
            },
        }
    }
}

impl From<std::io::Error> for WingetError {
    fn from(e: std::io::Error) -> (r: Self) {
        WingetError::Process(e)
    }
}

impl vstd::std_specs::convert::FromSpecImpl<std::io::Error> for WingetError {
    open spec fn obeys_from_spec() -> bool {
        true
    }

    open spec fn from_spec(e: std::io::Error) -> Self {
        WingetError::Process(e)
    }
}

impl From<std::string::FromUtf8Error> for WingetError {
    fn from(e: std::string::FromUtf8Error) -> (r: Self) {
        WingetError::Utf8(e)
    }
}

impl vstd::std_specs::convert::FromSpecImpl<std::string::FromUtf8Error> for WingetError {
    open spec fn obeys_from_spec() -> bool {
        true
    }

    open spec fn from_spec(e: std::string::FromUtf8Error) -> Self {
        WingetError::Utf8(e)
    }
}

impl From<ParseWingetError> for WingetError {
    fn from(e: ParseWingetError) -> (r: Self) {
        WingetError::Parse(e)
    }
}

impl vstd::std_specs::convert::FromSpecImpl<ParseWingetError> for WingetError {
    open spec fn obeys_from_spec() -> bool {
        true
    }

    open spec fn from_spec(e: ParseWingetError) -> Self {
        WingetError::Parse(e)
    }
}

impl From<ParsePackageSourceError> for ParseWingetError {
    fn from(e: ParsePackageSourceError) -> (r: Self) {
        ParseWingetError::InvalidSource(e)
    }
}

impl vstd::std_specs::convert::FromSpecImpl<ParsePackageSourceError> for ParseWingetError {
    open spec fn obeys_from_spec() -> bool {
        true
    }

    open spec fn from_spec(e: ParsePackageSourceError) -> Self {
        ParseWingetError::InvalidSource(e)
    }
}

} // verus!
