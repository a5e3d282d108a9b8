//! The entry points and errors of the FEEL expression parser.
use crate::scan::ScanError;
use crate::text::push_str;
use vstd::prelude::*;

verus! {

/// What a text is read as: one expression, or a list of unary tests.
#[derive(Debug, Clone, Copy, PartialEq, Eq, Structural)]
pub enum ParseTop {
    Expression,
    UnaryTests,
}

impl Default for ParseTop {
    fn default() -> (r: ParseTop)
        ensures
            r == ParseTop::Expression,
    {
        ParseTop::Expression
    }
}

/// An error of the parser, or one of the lexer that it passes on.
#[derive(Debug)]
pub enum ParseError {
    Parse(String),
    Scan(ScanError),
}

impl Clone for ParseError {
    fn clone(&self) -> (r: Self)
        ensures
            r == *self,
    {
        match self {
            ParseError::Parse(m) => ParseError::Parse(m.clone()),
            ParseError::Scan(e) => ParseError::Scan(e.clone()),
        }
    }
}

/// The printed form of a parse error.
pub open spec fn parse_error_text(e: ParseError) -> Seq<char> {
    match e {
        ParseError::Parse(m) => "ParseError: "@ + m@,
        ParseError::Scan(x) => "ScanError: "@ + x.message@,
    }
}

impl ParseError {
    pub fn new(message: String) -> (r: ParseError)
        ensures
            r == ParseError::Parse(message),
    {
        ParseError::Parse(message)
    }

    /// A lexer error, passed on.
    pub fn from_scan(err: ScanError) -> (r: ParseError)
        ensures
            r == ParseError::Scan(err),
    {
        ParseError::Scan(err)
    }

    pub fn to_string(&self) -> (r: String)
        ensures
            r@ == parse_error_text(*self),
    {
        match self {
            ParseError::Parse(m) => {
                let mut r = String::new();
                push_str(&mut r, "ParseError: ");
                push_str(&mut r, m.as_str());
                r
            },
            ParseError::Scan(x) => x.to_string(),
        }
    }
}

} // verus!
