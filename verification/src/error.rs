use vstd::prelude::*;
use crate::reader::Pos;

verus! {

/// What a parser expected, or found wrong.
#[derive(Clone, Debug, PartialEq, Eq)]
pub enum ParseError {
    Expecting { value: String },
    Space,
    Escape,
    TemplateVariable,
    InvalidCookieAttribute,
    RegexExpr { message: String },
    Unicode,
}

/// A parse failure. A recoverable failure lets an enclosing choice try its
/// next alternative; a non-recoverable one ends the parse.
#[derive(Clone, Debug, PartialEq, Eq)]
pub struct Error {
    pub pos: Pos,
    pub recoverable: bool,
    pub inner: ParseError,
}

pub type ParseResult<T> = Result<T, Error>;

pub enum ParseErrorV {
    Expecting { value: Seq<char> },
    Space,
    Escape,
    TemplateVariable,
    InvalidCookieAttribute,
    RegexExpr { message: Seq<char> },
    Unicode,
}

pub struct ErrorV {
    pub pos: Pos,
    pub recoverable: bool,
    pub inner: ParseErrorV,
}

impl View for ParseError {
    type V = ParseErrorV;

    open spec fn view(&self) -> ParseErrorV {
        match self {
            ParseError::Expecting { value } => ParseErrorV::Expecting { value: value@ },
            ParseError::Space => ParseErrorV::Space,
            ParseError::Escape => ParseErrorV::Escape,
            ParseError::TemplateVariable => ParseErrorV::TemplateVariable,
            ParseError::InvalidCookieAttribute => ParseErrorV::InvalidCookieAttribute,
            ParseError::RegexExpr { message } => ParseErrorV::RegexExpr { message: message@ },
            ParseError::Unicode => ParseErrorV::Unicode,
        }
    }
}

impl View for Error {
    type V = ErrorV;

    open spec fn view(&self) -> ErrorV {
        ErrorV { pos: self.pos, recoverable: self.recoverable, inner: self.inner@ }
    }
}

pub open spec fn error_at(pos: Pos, recoverable: bool, inner: ParseErrorV) -> ErrorV {
    ErrorV { pos, recoverable, inner }
}

pub open spec fn expecting(pos: Pos, recoverable: bool, value: Seq<char>) -> ErrorV {
    ErrorV { pos, recoverable, inner: ParseErrorV::Expecting { value } }
}

/// The same failure, made non-recoverable.
pub open spec fn no_recover(e: ErrorV) -> ErrorV {
    ErrorV { recoverable: false, ..e }
}

pub open spec fn result_view<T: View>(r: Result<T, Error>) -> Result<T::V, ErrorV> {
    match r {
        Ok(v) => Ok(v@),
        Err(e) => Err(e@),
    }
}

impl Error {
    pub fn new(pos: Pos, recoverable: bool, inner: ParseError) -> (e: Error)
        ensures
            e.pos == pos,
            e.recoverable == recoverable,
            e.inner == inner,
    {
        Error { pos, recoverable, inner }
    }

    pub fn non_recoverable(self) -> (e: Error)
        ensures
            e@ == no_recover(self@),
    {
        Error { pos: self.pos, recoverable: false, inner: self.inner }
    }
}

/// An `Expecting` failure naming `value`.
pub fn expecting_error(pos: Pos, recoverable: bool, value: &str) -> (e: Error)
    ensures
        e@ == expecting(pos, recoverable, value@),
{
    Error::new(pos, recoverable, ParseError::Expecting { value: String::from_str(value) })
}

} // verus!
