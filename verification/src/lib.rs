//! A small regular-expression engine: patterns are tokenized, parsed into an
//! expression tree, and matched against an input string by backtracking search.
//!
//! The engine exposes two operations: compiling a pattern string into an
//! [`expression::Expression`] tree, and matching such a tree against an input
//! string. Both are specified against a mathematical model of the pattern
//! language; `compile` here combines tokenizing and parsing.

pub mod character_sets;
pub mod expression;
pub mod token;

pub mod parse;
pub use parse::parse;

pub mod evaluate;
pub use evaluate::evaluate;

pub mod theorems;

use crate::expression::Expression;
use crate::expression::SpecExpression;
use crate::expression::expr_model;
use crate::parse::ParseError;
use crate::parse::spec_parse;
use crate::token::LexError;
use crate::token::spec_tokenize;
use vstd::prelude::*;

verus! {

/// Why a pattern failed to compile: an unrecognized character, or a
/// structural problem.
#[derive(Debug, PartialEq, Eq, Structural, Clone, Copy)]
pub enum CompileError {
    Lex(LexError),
    Parse(ParseError),
}

/// What compiling a pattern yields: the model of its expression tree, or
/// the first error the tokenizer or the parser finds.
pub open spec fn spec_compile(pattern: Seq<char>) -> Result<SpecExpression, CompileError> {
    match spec_tokenize(pattern) {
        Ok(tokens) => match spec_parse(tokens) {
            Ok(e) => Ok(e),
            Err(err) => Err(CompileError::Parse(err)),
        },
        Err(err) => Err(CompileError::Lex(err)),
    }
}

/// How an executable compilation result corresponds to the
/// specification-level one.
pub open spec fn compile_result_models(
    r: Result<Expression, CompileError>,
    m: Result<SpecExpression, CompileError>,
) -> bool {
    match r {
        Ok(e) => m is Ok && expr_model(e) == m->Ok_0,
        Err(err) => m == Err::<SpecExpression, CompileError>(err),
    }
}

/// Compiles a pattern string into an expression tree: the tokenizer runs
/// first, then the parser. Compilation is a pure function of the pattern,
/// so compiling the same pattern twice yields trees with the same model.
pub fn compile(pattern: &str) -> (r: Result<Expression, CompileError>)
    ensures
        compile_result_models(r, spec_compile(pattern@)),
{
    match token::tokenize(pattern) {
        Ok(tokens) => match parse::parse(tokens.as_slice()) {
            Ok(e) => Ok(e),
            Err(err) => Err(CompileError::Parse(err)),
        },
        Err(err) => Err(CompileError::Lex(err)),
    }
}

} // verus!
