//! Errors of FEEL evaluation, with where in the text they arose.
use crate::parse::{parse_error_text, ParseError};
use crate::position::TextPosition;
use crate::text::{nat_text, push_str};
use crate::values::{TypeError, ValueError};
use vstd::prelude::*;

verus! {

#[derive(Debug)]
pub enum EvalErrorKind {
    VarNotFound(String),
    KeyError,
    IndexError,
    TypeError(String),
    Runtime(String),
    Parse(ParseError),
    ValueError(String),
}

impl Clone for EvalErrorKind {
    fn clone(&self) -> (r: Self)
        ensures
            r == *self,
    {
        match self {
            EvalErrorKind::VarNotFound(m) => EvalErrorKind::VarNotFound(m.clone()),
            EvalErrorKind::KeyError => EvalErrorKind::KeyError,
            EvalErrorKind::IndexError => EvalErrorKind::IndexError,
            EvalErrorKind::TypeError(m) => EvalErrorKind::TypeError(m.clone()),
            EvalErrorKind::Runtime(m) => EvalErrorKind::Runtime(m.clone()),
            EvalErrorKind::Parse(e) => EvalErrorKind::Parse(e.clone()),
            EvalErrorKind::ValueError(m) => EvalErrorKind::ValueError(m.clone()),
        }
    }
}

/// The printed form of an error kind.
pub open spec fn kind_text(k: EvalErrorKind) -> Seq<char> {
    match k {
        EvalErrorKind::VarNotFound(name) => "VarNotFound: `"@ + name@ + "`"@,
        EvalErrorKind::KeyError => "KeyError"@,
        EvalErrorKind::TypeError(expect) => "TypeError: expect "@ + expect@,
        EvalErrorKind::IndexError => "IndexError"@,
        EvalErrorKind::Runtime(message) => "RuntimeError: "@ + message@,
        EvalErrorKind::ValueError(message) => "ValueError: "@ + message@,
        EvalErrorKind::Parse(e) => parse_error_text(e),
    }
}

impl EvalErrorKind {
    pub fn to_string(&self) -> (r: String)
        ensures
            r@ == kind_text(*self),
    {
        let mut r = String::new();
        match self {
            EvalErrorKind::VarNotFound(name) => {
                push_str(&mut r, "VarNotFound: `");
                push_str(&mut r, name.as_str());
                push_str(&mut r, "`");
            },
            EvalErrorKind::KeyError => push_str(&mut r, "KeyError"),
            EvalErrorKind::TypeError(expect) => {
                push_str(&mut r, "TypeError: expect ");
                push_str(&mut r, expect.as_str());
            },
            EvalErrorKind::IndexError => push_str(&mut r, "IndexError"),
            EvalErrorKind::Runtime(message) => {
                push_str(&mut r, "RuntimeError: ");
                push_str(&mut r, message.as_str());
            },
            EvalErrorKind::ValueError(message) => {
                push_str(&mut r, "ValueError: ");
                push_str(&mut r, message.as_str());
            },
            EvalErrorKind::Parse(e) => {
                r = e.to_string();
            },
        }
        assert(r@ =~= kind_text(*self));
        r
    }
}

/// An evaluation error and the position it is reported at.
#[derive(Debug)]
pub struct EvalError {
    pub kind: EvalErrorKind,
    pub pos: TextPosition,
}

impl Clone for EvalError {
    fn clone(&self) -> (r: Self)
        ensures
            r == *self,
    {
        EvalError { kind: self.kind.clone(), pos: self.pos }
    }
}

/// The printed form of an evaluation error: `KIND at POSITION`.
pub open spec fn eval_error_text(e: EvalError) -> Seq<char> {
    kind_text(e.kind) + " at "@ + "chars: "@ + nat_text(e.pos.chars as nat) + ", lines: "@
        + nat_text(e.pos.lines as nat) + ", cols: "@ + nat_text(e.pos.cols as nat)
}

impl EvalError {
    /// An error reported at the start of the text.
    pub fn new(kind: EvalErrorKind) -> (r: EvalError)
        ensures
            r.kind == kind,
            r.pos@ == (0int, 0int, 0int),
    {
        EvalError { kind, pos: TextPosition::zero() }
    }

    pub fn new_with_pos(kind: EvalErrorKind, pos: TextPosition) -> (r: EvalError)
        ensures
            r.kind == kind,
            r.pos == pos,
    {
        EvalError { kind, pos }
    }

    pub fn runtime(message: &str) -> (r: EvalError)
        ensures
            r.kind matches EvalErrorKind::Runtime(m) && m@ == message@,
            r.pos@ == (0int, 0int, 0int),
    {
        Self::new(EvalErrorKind::Runtime(message.to_owned()))
    }

    pub fn value_error(message: &str) -> (r: EvalError)
        ensures
            r.kind matches EvalErrorKind::ValueError(m) && m@ == message@,
            r.pos@ == (0int, 0int, 0int),
    {
        Self::new(EvalErrorKind::ValueError(message.to_owned()))
    }

    pub fn type_error(message: &str) -> (r: EvalError)
        ensures
            r.kind matches EvalErrorKind::TypeError(m) && m@ == message@,
            r.pos@ == (0int, 0int, 0int),
    {
        Self::new(EvalErrorKind::TypeError(message.to_owned()))
    }

    pub fn index_error() -> (r: EvalError)
        ensures
            r.kind is IndexError,
            r.pos@ == (0int, 0int, 0int),
    {
        Self::new(EvalErrorKind::IndexError)
    }

    /// The same error, reported at `pos`.
    pub fn with_pos(&self, pos: TextPosition) -> (r: EvalError)
        ensures
            r.kind == self.kind,
            r.pos == pos,
    {
        EvalError { kind: self.kind.clone(), pos }
    }

    /// The same error, reported at `pos` where `pos` is the start of the
    /// text, and where it was otherwise.
    pub fn with_pos_if_zero(&self, pos: TextPosition) -> (r: EvalError)
        ensures
            r.kind == self.kind,
            r.pos == if pos@ == (0int, 0int, 0int) {
                pos
            } else {
                self.pos
            },
    {
        if pos.is_zero() {
            EvalError { kind: self.kind.clone(), pos }
        } else {
            EvalError { kind: self.kind.clone(), pos: self.pos }
        }
    }

    /// An error from a parse error.
    pub fn from_parse(err: ParseError) -> (r: EvalError)
        ensures
            r.kind == EvalErrorKind::Parse(err),
            r.pos@ == (0int, 0int, 0int),
    {
        Self::new(EvalErrorKind::Parse(err))
    }

    /// An error from a value error.
    pub fn from_value_error(err: ValueError) -> (r: EvalError)
        ensures
            r.kind == EvalErrorKind::ValueError(err.0),
            r.pos@ == (0int, 0int, 0int),
    {
        Self::new(EvalErrorKind::ValueError(err.0))
    }

    /// An error from a type error.
    pub fn from_type_error(err: TypeError) -> (r: EvalError)
        ensures
            r.kind == EvalErrorKind::TypeError(err.0),
            r.pos@ == (0int, 0int, 0int),
    {
        Self::new(EvalErrorKind::TypeError(err.0))
    }

    /// The printed form `KIND at POSITION`.
    pub fn to_string(&self) -> (r: String)
        ensures
            r@ == eval_error_text(*self),
    {
        let mut r = self.kind.to_string();
        push_str(&mut r, " at ");
        push_str(&mut r, self.pos.to_string().as_str());
        assert(r@ =~= kind_text(self.kind) + " at "@ + "chars: "@ + nat_text(self.pos.chars as nat)
            + ", lines: "@ + nat_text(self.pos.lines as nat) + ", cols: "@ + nat_text(
            self.pos.cols as nat,
        ));
        r
    }
}

} // verus!
