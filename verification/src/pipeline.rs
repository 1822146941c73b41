//! The whole run: scan, parse, evaluate, render.
//!
//! Each stage runs to completion before the next one starts, and the first
//! error of any stage is the result of the run.

use vstd::prelude::*;
use crate::config::Config;
use crate::eval::{eval, eval_node, EvalError};
use crate::formatter::{format_text, format_value, valid_width};
use crate::parse::{parse_tokens, ParseError, ParseTableSt};
use crate::scan::{scan_from, scan_text, ScanError, ScanTableSt};

verus! {

/// Why a run has no result: the error of the stage that failed.
#[derive(Debug, Clone, Copy, PartialEq, Eq)]
pub enum CalcError {
    /// The text is not a sequence of tokens.
    Scan(ScanError),
    /// The tokens are not a program.
    Parse(ParseError),
    /// The program has no value.
    Eval(EvalError),
}

/// The value of an expression text: its tokens are parsed and the tree is
/// evaluated.
pub open spec fn evaluate_text(text: Seq<char>) -> Result<u32, CalcError> {
    match scan_text(text) {
        Err(e) => Err(CalcError::Scan(e)),
        Ok(tokens) => match parse_tokens(tokens) {
            Err(e) => Err(CalcError::Parse(e)),
            Ok(node) => match eval_node(node) {
                Err(e) => Err(CalcError::Eval(e)),
                Ok(value) => Ok(value),
            },
        },
    }
}

/// The line that a run prints: the value of the expression, rendered as the
/// configuration asks.
pub open spec fn run_text(
    expression: Seq<char>,
    base: u32,
    width: u32,
    unsigned_int: bool,
) -> Result<Seq<char>, CalcError> {
    match evaluate_text(expression) {
        Ok(value) => Ok(format_text(value, base, width, unsigned_int)),
        Err(e) => Err(e),
    }
}

/// Evaluates an expression text.
pub fn evaluate(expression: &str) -> (result: Result<u32, CalcError>)
    ensures
        result == evaluate_text(expression@),
{
    let mut st = ScanTableSt::new();
    match st.scan(expression) {
        Ok(()) => {},
        Err(e) => {
            return Err(CalcError::Scan(e));
        },
    }
    assert(st.tokens() =~= scan_from(expression@, 0).tokens);
    let mut pt = ParseTableSt::new();
    let node = match pt.parse_program(&mut st) {
        Ok(node) => node,
        Err(e) => {
            return Err(CalcError::Parse(e));
        },
    };
    match eval(&Some(&node)) {
        Ok(value) => Ok(value),
        Err(e) => Err(CalcError::Eval(e)),
    }
}

/// Evaluates the expression of `config` and renders its value in the base,
/// width and signedness of `config`.
pub fn run(config: &Config) -> (result: Result<String, CalcError>)
    requires
        valid_width(config.width),
    ensures
        match run_text(config.expression@, config.base, config.width, config.unsigned_int) {
            Ok(line) => result matches Ok(text) && text@ == line,
            Err(e) => result matches Err(err) && err == e,
        },
{
    match evaluate(config.expression.as_str()) {
        Ok(value) => Ok(format_value(value, config.base, config.width, config.unsigned_int)),
        Err(e) => Err(e),
    }
}

} // verus!
