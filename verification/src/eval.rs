//! The evaluator: from an expression tree to a 32-bit word.
//!
//! Arithmetic wraps around modulo `2^32`.  Shifts take their amount modulo
//! 32, as a 32-bit machine does.  Division by zero is an error, and so is an
//! operator on a node that cannot carry it.

use vstd::prelude::*;
use crate::parse::{ParseNode, ParseNodeType, ParseOperator};

verus! {

/// Why a tree has no value.
#[derive(Debug, Clone, Copy, PartialEq, Eq)]
pub enum EvalError {
    /// The right operand of a division is zero.
    DivisionByZero,
    /// A node with one operand carries an operator other than `-` and `~`.
    /// The parser makes no such node.
    InvalidUnaryOperator,
    /// A node with two operands carries `~`.  The parser makes no such node.
    InvalidBinaryOperator,
}

/// `-v` in two's complement: the word that adds up with `v` to zero modulo
/// `2^32`.
pub open spec fn negate(v: u32) -> u32 {
    if v == 0 {
        0
    } else {
        (0x1_0000_0000 - v) as u32
    }
}

/// `a >- b`: `a` is read as a signed 32-bit number and shifted right by
/// `b % 32` places, so the sign bit fills the places that open up.
pub open spec fn arith_shift_right(a: u32, b: u32) -> u32 {
    ((a as i32) >> (b % 32)) as u32
}

/// The value of `oper` on one operand.
pub open spec fn apply_unary(oper: ParseOperator, v: u32) -> Result<u32, EvalError> {
    match oper {
        ParseOperator::Minus => Ok(negate(v)),
        ParseOperator::BitNot => Ok(!v),
        _ => Err(EvalError::InvalidUnaryOperator),
    }
}

/// The value of `oper` on two operands.
pub open spec fn apply_binary(oper: ParseOperator, a: u32, b: u32) -> Result<u32, EvalError> {
    match oper {
        ParseOperator::Plus => Ok(((a + b) % 0x1_0000_0000) as u32),
        ParseOperator::Minus => Ok(((a - b) % 0x1_0000_0000) as u32),
        ParseOperator::Mult => Ok(((a * b) % 0x1_0000_0000) as u32),
        ParseOperator::Div => if b == 0 {
            Err(EvalError::DivisionByZero)
        } else {
            Ok(a / b)
        },
        ParseOperator::ShiftRight => Ok(a >> (b % 32)),
        ParseOperator::ShiftLeft => Ok(a << (b % 32)),
        ParseOperator::ArithShiftRight => Ok(arith_shift_right(a, b)),
        ParseOperator::BitAnd => Ok(a & b),
        ParseOperator::BitOr => Ok(a | b),
        ParseOperator::BitXor => Ok(a ^ b),
        ParseOperator::BitNot => Err(EvalError::InvalidBinaryOperator),
    }
}

/// The value of a tree.  An operand that is missing counts as 0, and so does
/// a node that was never filled in.  The operands are evaluated from left to
/// right, before the operator is looked at, and the first error ends the
/// evaluation.
pub open spec fn eval_node(node: ParseNode) -> Result<u32, EvalError>
    decreases node,
{
    match node.type_ {
        ParseNodeType::Literal => Ok(node.value),
        ParseNodeType::Oper1 => match eval_operand(node.left) {
            Ok(v) => apply_unary(node.oper, v),
            Err(e) => Err(e),
        },
        ParseNodeType::Oper2 => match eval_operand(node.left) {
            Ok(a) => match eval_operand(node.right) {
                Ok(b) => apply_binary(node.oper, a, b),
                Err(e) => Err(e),
            },
            Err(e) => Err(e),
        },
        ParseNodeType::Empty => Ok(0),
    }
}

/// The value of an operand slot: that of its tree, or 0 when it is empty.
pub open spec fn eval_operand(operand: Option<Box<ParseNode>>) -> Result<u32, EvalError>
    decreases operand,
{
    match operand {
        Some(node) => eval_node(*node),
        None => Ok(0),
    }
}

/// The value of what `pt` refers to: that of the tree, or 0 for no tree.
pub open spec fn eval_tree(pt: Option<&ParseNode>) -> Result<u32, EvalError> {
    match pt {
        Some(node) => eval_node(*node),
        None => Ok(0),
    }
}

/// Applies `oper` to one operand.
fn eval_unary(oper: ParseOperator, v: u32) -> (result: Result<u32, EvalError>)
    ensures
        result == apply_unary(oper, v),
{
    match oper {
        ParseOperator::Minus => Ok(0u32.wrapping_sub(v)),
        ParseOperator::BitNot => Ok(!v),
        _ => Err(EvalError::InvalidUnaryOperator),
    }
}

/// Applies `oper` to two operands.
fn eval_binary(oper: ParseOperator, a: u32, b: u32) -> (result: Result<u32, EvalError>)
    ensures
        result == apply_binary(oper, a, b),
{
    match oper {
        ParseOperator::Plus => Ok(a.wrapping_add(b)),
        ParseOperator::Minus => Ok(a.wrapping_sub(b)),
        ParseOperator::Mult => Ok(a.wrapping_mul(b)),
        ParseOperator::Div => {
            if b == 0 {
                Err(EvalError::DivisionByZero)
            } else {
                Ok(a / b)
            }
        },
        ParseOperator::ShiftRight => Ok(a.wrapping_shr(b)),
        ParseOperator::ShiftLeft => Ok(a.wrapping_shl(b)),
        ParseOperator::ArithShiftRight => {
            let signed: i32 = #[verifier::truncate]
            (a as i32);
            let shifted: i32 = signed.wrapping_shr(b);
            Ok(#[verifier::truncate] (shifted as u32))
        },
        ParseOperator::BitAnd => Ok(a & b),
        ParseOperator::BitOr => Ok(a | b),
        ParseOperator::BitXor => Ok(a ^ b),
        ParseOperator::BitNot => Err(EvalError::InvalidBinaryOperator),
    }
}

/// The tree in an operand slot, if there is one.
fn operand_of(slot: &Option<Box<ParseNode>>) -> (operand: Option<&ParseNode>)
    ensures
        eval_tree(operand) == eval_operand(*slot),
        operand matches Some(node) ==> *slot == Some(Box::new(*node)),
        operand is None <==> *slot is None,
{
    match slot {
        Some(node) => Some(&**node),
        None => None,
    }
}

/// Evaluates the tree that `pt` refers to.
///
/// A literal has its value; `-` and `~` on one operand negate and complement
/// it; the binary operators add, subtract and multiply modulo `2^32`, divide
/// (by zero: an error), shift by the right operand modulo 32 and combine bit
/// by bit.  No tree, a missing operand and a node that was never filled in
/// count as 0.
pub fn eval(pt: &Option<&ParseNode>) -> (result: Result<u32, EvalError>)
    ensures
        result == eval_tree(*pt),
    decreases *pt,
{
    match pt {
        Some(node) => {
            match node.type_ {
                ParseNodeType::Literal => Ok(node.value),
                ParseNodeType::Oper1 => {
                    let v1 = eval(&operand_of(&node.left))?;
                    eval_unary(node.oper, v1)
                },
                ParseNodeType::Oper2 => {
                    let v1 = eval(&operand_of(&node.left))?;
                    let v2 = eval(&operand_of(&node.right))?;
                    eval_binary(node.oper, v1, v2)
                },
                ParseNodeType::Empty => Ok(0),
            }
        },
        None => Ok(0),
    }
}

} // verus!
