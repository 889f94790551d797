//! What can go wrong on the way from a file to a stub.

use crate::ids::FileId;
use vstd::prelude::*;
use vstd::string::StringExecFns;

verus! {

/// A stretch of a file's text, in bytes.
#[derive(Clone, Copy, Debug, PartialEq, Eq, Structural)]
pub struct TextRange {
    pub start: u32,
    pub end: u32,
}

/// What the parser reports of a file it could not parse.
#[derive(Debug, PartialEq, Eq)]
pub struct ParseError {
    pub path: String,
    pub location: Option<TextRange>,
    pub msg: String,
    pub code: String,
}

pub struct ParseErrorV {
    pub path: Seq<char>,
    pub location: Option<TextRange>,
    pub msg: Seq<char>,
    pub code: Seq<char>,
}

impl View for ParseError {
    type V = ParseErrorV;

    open spec fn view(&self) -> ParseErrorV {
        ParseErrorV { path: self.path@, location: self.location, msg: self.msg@, code: self.code@ }
    }
}

impl ParseError {
    pub fn clone(&self) -> (e: ParseError)
        ensures
            e@ == self@,
    {
        ParseError {
            path: self.path.clone(),
            location: self.location,
            msg: self.msg.clone(),
            code: self.code.clone(),
        }
    }
}

#[derive(Debug, PartialEq, Eq)]
pub enum Error {
    /// The project's module index does not hold the module.
    ModuleNotFound(String),
    /// No compiled artifact is at hand for the path.
    BEAMNotFound(String),
    /// A declaration could not be turned into a stub entry; the detail names it.
    TypeConversionError(String),
    /// The parser rejected the module's file.
    ParseError(ParseError),
    /// The file has not been parsed since it last changed: whoever runs the
    /// parser has work to do before the question can be answered.
    AstUnavailable(FileId),
}

pub enum ErrorV {
    ModuleNotFound(Seq<char>),
    BEAMNotFound(Seq<char>),
    TypeConversionError(Seq<char>),
    ParseError(ParseErrorV),
    AstUnavailable(FileId),
}

impl View for Error {
    type V = ErrorV;

    open spec fn view(&self) -> ErrorV {
        match self {
            Error::ModuleNotFound(s) => ErrorV::ModuleNotFound(s@),
            Error::BEAMNotFound(s) => ErrorV::BEAMNotFound(s@),
            Error::TypeConversionError(s) => ErrorV::TypeConversionError(s@),
            Error::ParseError(e) => ErrorV::ParseError(e@),
            Error::AstUnavailable(f) => ErrorV::AstUnavailable(*f),
        }
    }
}

/// Whether an error says that there is work to do before the question can
/// be answered: a file to parse, or a compiled artifact to read.
pub open spec fn is_pending(e: ErrorV) -> bool {
    e is AstUnavailable || e is BEAMNotFound
}

/// The text of an error, as diagnostics show it.
pub open spec fn error_message(e: ErrorV) -> Seq<char> {
    match e {
        ErrorV::ModuleNotFound(s) => "module not found: "@ + s,
        ErrorV::BEAMNotFound(s) => "BEAM file not found: "@ + s,
        ErrorV::TypeConversionError(s) => "type conversion error: "@ + s,
        ErrorV::ParseError(e) => "parse error in "@ + e.path + ": "@ + e.msg,
        ErrorV::AstUnavailable(_) => "syntax tree not available"@,
    }
}

impl Error {
    pub fn clone(&self) -> (e: Error)
        ensures
            e@ == self@,
    {
        match self {
            Error::ModuleNotFound(s) => Error::ModuleNotFound(s.clone()),
            Error::BEAMNotFound(s) => Error::BEAMNotFound(s.clone()),
            Error::TypeConversionError(s) => Error::TypeConversionError(s.clone()),
            Error::ParseError(e) => Error::ParseError(e.clone()),
            Error::AstUnavailable(f) => Error::AstUnavailable(*f),
        }
    }

    pub fn pending(&self) -> (p: bool)
        ensures
            p == is_pending(self@),
    {
        match self {
            Error::AstUnavailable(_) => true,
            Error::BEAMNotFound(_) => true,
            _ => false,
        }
    }

    pub fn to_string(&self) -> (s: String)
        ensures
            s@ == error_message(self@),
    {
        match self {
            Error::ModuleNotFound(m) => String::from_str("module not found: ").concat(m.as_str()),
            Error::BEAMNotFound(p) => String::from_str("BEAM file not found: ").concat(p.as_str()),
            Error::TypeConversionError(d) => String::from_str("type conversion error: ").concat(
                d.as_str(),
            ),
            Error::ParseError(e) => String::from_str("parse error in ").concat(e.path.as_str()).concat(
                ": ",
            ).concat(e.msg.as_str()),
            Error::AstUnavailable(_) => String::from_str("syntax tree not available"),
        }
    }
}

} // verus!
