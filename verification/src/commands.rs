//! The commands of the FEEL command line tool, and what running a script
//! prints.
use crate::script::ast::node_text;
use crate::script::eval::{eval_err_view, EvalError, Intepreter, MAX_CALLS};
use crate::script::grammar::g_parse;
use crate::script::parse::parse;
use crate::script::semantics::{ev, SEvalErr};
use crate::script::value::value_text;
use crate::text::utf8_len;
use vstd::prelude::*;

verus! {

/// Print the syntax tree of a script, or evaluate it.
#[derive(Debug)]
pub enum FEELCommands {
    Ast { script: String },
    Eval { script: String },
}

/// What running a script prints: the printed form of its syntax tree where
/// `ast` holds, else that of its value in a fresh interpreter; or the error
/// that stops it.
pub open spec fn script_output(s: Seq<char>, ast: bool) -> Result<Seq<char>, SEvalErr> {
    match g_parse(s) {
        Err(e) => Err(SEvalErr::Parse(e)),
        Ok(n) => if ast {
            Ok(node_text(n))
        } else {
            match ev(MAX_CALLS as nat, seq![Seq::empty()], n).1 {
                Ok(v) => Ok(value_text(v)),
                Err(e) => Err(e),
            }
        },
    }
}

/// Parses a script and gives the printed form of its syntax tree, or, where
/// `ast` is false, evaluates it in a fresh interpreter and gives the printed
/// form of its value.
pub fn run_script(script: &str, ast: bool) -> (r: Result<String, EvalError>)
    requires
        utf8_len(script@) <= usize::MAX,
    ensures
        match r {
            Ok(t) => script_output(script@, ast) == Ok::<Seq<char>, SEvalErr>(t@),
            Err(e) => script_output(script@, ast) == Err::<Seq<char>, SEvalErr>(eval_err_view(e)),
        },
{
    let n = match parse(script) {
        Ok(n) => n,
        Err(e) => return Err(EvalError::Parse(e)),
    };
    if ast {
        Ok(n.to_string())
    } else {
        let mut intp = Intepreter::new();
        match intp.eval(&n) {
            Ok(v) => Ok(v.to_string()),
            Err(e) => Err(e),
        }
    }
}

impl FEELCommands {
    /// The script of the command.
    pub fn script(&self) -> (r: &str)
        ensures
            r@ == self.script_view(),
    {
        match self {
            FEELCommands::Ast { script } => script.as_str(),
            FEELCommands::Eval { script } => script.as_str(),
        }
    }

    /// What the command prints: the syntax tree of the script for `Ast`,
    /// its value for `Eval`; or the error that stops it.
    pub fn output(&self) -> (r: Result<String, EvalError>)
        requires
            utf8_len(self.script_view()) <= usize::MAX,
        ensures
            match r {
                Ok(t) => script_output(self.script_view(), self is Ast) == Ok::<Seq<char>, SEvalErr>(t@),
                Err(e) => script_output(self.script_view(), self is Ast) == Err::<Seq<char>, SEvalErr>(
                    eval_err_view(e),
                ),
            },
    {
        match self {
            FEELCommands::Ast { script } => run_script(script.as_str(), true),
            FEELCommands::Eval { script } => run_script(script.as_str(), false),
        }
    }

    pub open spec fn script_view(&self) -> Seq<char> {
        match self {
            FEELCommands::Ast { script } => script@,
            FEELCommands::Eval { script } => script@,
        }
    }
}

} // verus!
