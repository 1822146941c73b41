//! A listing of an expression tree, one line for each node.
//!
//! A node comes before its operands, the left operand before the right one.

use vstd::prelude::*;
use vstd::string::StringExecFns;
use crate::formatter::{convert_to_decimal, decimal_digits};
use crate::parse::{ParseNode, ParseNodeType, ParseOperator};

verus! {

/// The name of an operator.
pub open spec fn operator_name(oper: ParseOperator) -> Seq<char> {
    match oper {
        ParseOperator::Plus => "Plus"@,
        ParseOperator::Minus => "Minus"@,
        ParseOperator::Mult => "Mult"@,
        ParseOperator::Div => "Div"@,
        ParseOperator::ShiftRight => "ShiftRight"@,
        ParseOperator::ShiftLeft => "ShiftLeft"@,
        ParseOperator::ArithShiftRight => "ArithShiftRight"@,
        ParseOperator::BitAnd => "BitAnd"@,
        ParseOperator::BitOr => "BitOr"@,
        ParseOperator::BitXor => "BitXor"@,
        ParseOperator::BitNot => "BitNot"@,
    }
}

/// The line of a node: a literal with its value in base 10, an operator with
/// its name, or a note that the node was never filled in.
pub open spec fn node_line(node: ParseNode) -> Seq<char> {
    match node.type_ {
        ParseNodeType::Literal => "Literal: "@ + decimal_digits(node.value as nat),
        ParseNodeType::Oper1 => "Operator: "@ + operator_name(node.oper),
        ParseNodeType::Oper2 => "Operator: "@ + operator_name(node.oper),
        ParseNodeType::Empty => "Empty Node"@,
    }
}

/// The lines of a tree.  A literal and an empty node are one line whatever
/// hangs under them; a node with one operand lists its left operand; a node
/// with two lists the left one, then the right one.
pub open spec fn tree_lines(node: ParseNode) -> Seq<Seq<char>>
    decreases node,
{
    match node.type_ {
        ParseNodeType::Literal => seq![node_line(node)],
        ParseNodeType::Oper1 => seq![node_line(node)] + operand_lines(node.left),
        ParseNodeType::Oper2 => seq![node_line(node)] + operand_lines(node.left) + operand_lines(
            node.right,
        ),
        ParseNodeType::Empty => seq![node_line(node)],
    }
}

/// The lines of what is in an operand slot: none for an empty slot.
pub open spec fn operand_lines(operand: Option<Box<ParseNode>>) -> Seq<Seq<char>>
    decreases operand,
{
    match operand {
        Some(node) => tree_lines(*node),
        None => Seq::empty(),
    }
}

/// The lines that a vector of strings holds.
pub open spec fn lines_of(lines: Seq<String>) -> Seq<Seq<char>> {
    lines.map_values(|line: String| line@)
}

/// The name of an operator.
fn name_of(oper: ParseOperator) -> (name: &'static str)
    ensures
        name@ == operator_name(oper),
{
    match oper {
        ParseOperator::Plus => "Plus",
        ParseOperator::Minus => "Minus",
        ParseOperator::Mult => "Mult",
        ParseOperator::Div => "Div",
        ParseOperator::ShiftRight => "ShiftRight",
        ParseOperator::ShiftLeft => "ShiftLeft",
        ParseOperator::ArithShiftRight => "ArithShiftRight",
        ParseOperator::BitAnd => "BitAnd",
        ParseOperator::BitOr => "BitOr",
        ParseOperator::BitXor => "BitXor",
        ParseOperator::BitNot => "BitNot",
    }
}

/// The line of a node.
fn line_of(node: &ParseNode) -> (line: String)
    ensures
        line@ == node_line(*node),
{
    match node.type_ {
        ParseNodeType::Literal => {
            proof {
                vstd::arithmetic::power2::lemma2_to64();
            }
            let digits = convert_to_decimal(node.value, false, 32);
            String::from_str("Literal: ").concat(digits.as_str())
        },
        ParseNodeType::Oper1 => String::from_str("Operator: ").concat(name_of(node.oper)),
        ParseNodeType::Oper2 => String::from_str("Operator: ").concat(name_of(node.oper)),
        ParseNodeType::Empty => String::from_str("Empty Node"),
    }
}

/// Adds the lines of the tree in an operand slot to `lines`.
fn add_operand_lines(operand: &Option<Box<ParseNode>>, lines: &mut Vec<String>)
    ensures
        lines_of(final(lines)@) == lines_of(old(lines)@) + operand_lines(*operand),
    decreases *operand,
{
    match operand {
        Some(node) => {
            add_tree_lines(node, lines);
        },
        None => {
            assert(lines_of(lines@) =~= lines_of(old(lines)@) + operand_lines(*operand));
        },
    }
}

/// Adds the lines of a tree to `lines`.
fn add_tree_lines(node: &ParseNode, lines: &mut Vec<String>)
    ensures
        lines_of(final(lines)@) == lines_of(old(lines)@) + tree_lines(*node),
    decreases *node,
{
    let line = line_of(node);
    lines.push(line);
    assert(lines_of(lines@) =~= lines_of(old(lines)@) + seq![node_line(*node)]);
    match node.type_ {
        ParseNodeType::Literal => {},
        ParseNodeType::Oper1 => {
            add_operand_lines(&node.left, lines);
        },
        ParseNodeType::Oper2 => {
            add_operand_lines(&node.left, lines);
            add_operand_lines(&node.right, lines);
        },
        ParseNodeType::Empty => {},
    }
    assert(lines_of(lines@) =~= lines_of(old(lines)@) + tree_lines(*node));
}

/// The listing of a tree: the line of each node, a node before its operands.
pub fn parse_tree_lines(node: &ParseNode) -> (lines: Vec<String>)
    ensures
        lines_of(lines@) == tree_lines(*node),
{
    let mut lines: Vec<String> = Vec::new();
    add_tree_lines(node, &mut lines);
    assert(lines_of(lines@) =~= tree_lines(*node));
    lines
}

} // verus!
