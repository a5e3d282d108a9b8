//! A FEEL (Friendly Enough Expression Language) toolkit: lexers, parsers,
//! syntax trees and the small pieces of DMN decision modelling around them.
pub mod text;
pub mod helpers;
pub mod ast;
pub mod lexing;
pub mod position;
pub mod scan;
pub mod parse;
pub mod values;
pub mod eval;
pub mod prelude;
pub mod xml;
pub mod dmn;
pub mod dmn_read;
pub mod engine;
pub mod decision;
pub mod temporal;
pub mod range;
pub mod commands;
pub mod script;
