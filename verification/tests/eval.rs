use bitcalc::eval::{eval, EvalError};
use bitcalc::parse::{ParseNode, ParseNodeType, ParseOperator};

fn literal(value: u32) -> ParseNode {
    ParseNode::new(value)
}

fn node(
    type_: ParseNodeType,
    oper: ParseOperator,
    left: Option<ParseNode>,
    right: Option<ParseNode>,
) -> ParseNode {
    ParseNode { type_, value: 0, oper, left: left.map(Box::new), right: right.map(Box::new) }
}

fn unary(oper: ParseOperator, v: u32) -> Result<u32, EvalError> {
    eval(&Some(&node(ParseNodeType::Oper1, oper, Some(literal(v)), None)))
}

fn binary(oper: ParseOperator, a: u32, b: u32) -> Result<u32, EvalError> {
    eval(&Some(&node(ParseNodeType::Oper2, oper, Some(literal(a)), Some(literal(b)))))
}

#[test]
fn a_literal_is_its_value() {
    assert_eq!(eval(&Some(&literal(0))), Ok(0));
    assert_eq!(eval(&Some(&literal(0xFFFF_FFFF))), Ok(0xFFFF_FFFF));
}

#[test]
fn negation_wraps() {
    assert_eq!(unary(ParseOperator::Minus, 0), Ok(0));
    assert_eq!(unary(ParseOperator::Minus, 1), Ok(0xFFFF_FFFF));
    assert_eq!(unary(ParseOperator::Minus, 3), Ok(0xFFFF_FFFD));
    assert_eq!(unary(ParseOperator::Minus, 0x8000_0000), Ok(0x8000_0000));
    assert_eq!(unary(ParseOperator::Minus, 0xFFFF_FFFF), Ok(1));
}

#[test]
fn complement_flips_every_bit() {
    assert_eq!(unary(ParseOperator::BitNot, 0), Ok(0xFFFF_FFFF));
    assert_eq!(unary(ParseOperator::BitNot, 0x0F0F_0F0F), Ok(0xF0F0_F0F0));
}

#[test]
fn addition_subtraction_multiplication_wrap() {
    assert_eq!(binary(ParseOperator::Plus, 2, 3), Ok(5));
    assert_eq!(binary(ParseOperator::Plus, 0xFFFF_FFFF, 1), Ok(0));
    assert_eq!(binary(ParseOperator::Plus, 0xFFFF_FFFF, 0xFFFF_FFFF), Ok(0xFFFF_FFFE));
    assert_eq!(binary(ParseOperator::Minus, 5, 3), Ok(2));
    assert_eq!(binary(ParseOperator::Minus, 0, 1), Ok(0xFFFF_FFFF));
    assert_eq!(binary(ParseOperator::Minus, 3, 5), Ok(0xFFFF_FFFE));
    assert_eq!(binary(ParseOperator::Mult, 6, 7), Ok(42));
    assert_eq!(binary(ParseOperator::Mult, 0x1_0000, 0x1_0000), Ok(0));
    assert_eq!(binary(ParseOperator::Mult, 0xFFFF_FFFF, 0xFFFF_FFFF), Ok(1));
    assert_eq!(binary(ParseOperator::Mult, 0x8000_0001, 2), Ok(2));
}

#[test]
fn division_truncates_and_refuses_zero() {
    assert_eq!(binary(ParseOperator::Div, 7, 2), Ok(3));
    assert_eq!(binary(ParseOperator::Div, 0xFFFF_FFFF, 1), Ok(0xFFFF_FFFF));
    assert_eq!(binary(ParseOperator::Div, 0, 5), Ok(0));
    assert_eq!(binary(ParseOperator::Div, 7, 0), Err(EvalError::DivisionByZero));
    assert_eq!(binary(ParseOperator::Div, 0, 0), Err(EvalError::DivisionByZero));
}

#[test]
fn shifts_take_their_amount_modulo_32() {
    assert_eq!(binary(ParseOperator::ShiftRight, 0x8000_0000, 31), Ok(1));
    assert_eq!(binary(ParseOperator::ShiftRight, 0xF0, 4), Ok(0x0F));
    assert_eq!(binary(ParseOperator::ShiftRight, 0xF0, 0), Ok(0xF0));
    assert_eq!(binary(ParseOperator::ShiftRight, 0xF0, 32), Ok(0xF0));
    assert_eq!(binary(ParseOperator::ShiftRight, 0xF0, 36), Ok(0x0F));
    assert_eq!(binary(ParseOperator::ShiftLeft, 1, 31), Ok(0x8000_0000));
    assert_eq!(binary(ParseOperator::ShiftLeft, 0xFFFF_FFFF, 4), Ok(0xFFFF_FFF0));
    assert_eq!(binary(ParseOperator::ShiftLeft, 3, 32), Ok(3));
    assert_eq!(binary(ParseOperator::ShiftLeft, 3, 33), Ok(6));
}

#[test]
fn arithmetic_shift_keeps_the_sign() {
    assert_eq!(binary(ParseOperator::ArithShiftRight, 0x8000_0000, 4), Ok(0xF800_0000));
    assert_eq!(binary(ParseOperator::ArithShiftRight, 0x8000_0000, 31), Ok(0xFFFF_FFFF));
    assert_eq!(binary(ParseOperator::ArithShiftRight, 0x7FFF_FFFF, 4), Ok(0x07FF_FFFF));
    assert_eq!(binary(ParseOperator::ArithShiftRight, 0xFFFF_FFF0, 2), Ok(0xFFFF_FFFC));
    assert_eq!(binary(ParseOperator::ArithShiftRight, 0xFFFF_FFF0, 34), Ok(0xFFFF_FFFC));
    assert_eq!(binary(ParseOperator::ArithShiftRight, 0x10, 0), Ok(0x10));
}

#[test]
fn bitwise_operators_combine_bit_by_bit() {
    assert_eq!(binary(ParseOperator::BitAnd, 0b1100, 0b1010), Ok(0b1000));
    assert_eq!(binary(ParseOperator::BitOr, 0b1100, 0b1010), Ok(0b1110));
    assert_eq!(binary(ParseOperator::BitXor, 0b1100, 0b1010), Ok(0b0110));
}

#[test]
fn operators_on_the_wrong_kind_of_node() {
    for oper in [
        ParseOperator::Plus,
        ParseOperator::Mult,
        ParseOperator::Div,
        ParseOperator::ShiftRight,
        ParseOperator::ShiftLeft,
        ParseOperator::ArithShiftRight,
        ParseOperator::BitAnd,
        ParseOperator::BitOr,
        ParseOperator::BitXor,
    ] {
        assert_eq!(unary(oper, 1), Err(EvalError::InvalidUnaryOperator));
    }
    assert_eq!(binary(ParseOperator::BitNot, 1, 2), Err(EvalError::InvalidBinaryOperator));
}

#[test]
fn the_first_error_counts() {
    let division =
        || node(ParseNodeType::Oper2, ParseOperator::Div, Some(literal(1)), Some(literal(0)));
    let bad = || node(ParseNodeType::Oper1, ParseOperator::Plus, Some(literal(1)), None);
    // The operands are evaluated before the operator is looked at.
    let tree = node(ParseNodeType::Oper2, ParseOperator::BitNot, Some(division()), Some(bad()));
    assert_eq!(eval(&Some(&tree)), Err(EvalError::DivisionByZero));
    let tree = node(ParseNodeType::Oper2, ParseOperator::Plus, Some(bad()), Some(division()));
    assert_eq!(eval(&Some(&tree)), Err(EvalError::InvalidUnaryOperator));
}

#[test]
fn nothing_counts_as_zero() {
    assert_eq!(eval(&None), Ok(0));
    let blank = node(ParseNodeType::Empty, ParseOperator::Plus, Some(literal(9)), None);
    assert_eq!(eval(&Some(&blank)), Ok(0));
    let no_operand = node(ParseNodeType::Oper1, ParseOperator::BitNot, None, None);
    assert_eq!(eval(&Some(&no_operand)), Ok(0xFFFF_FFFF));
    let no_right = node(ParseNodeType::Oper2, ParseOperator::Plus, Some(literal(4)), None);
    assert_eq!(eval(&Some(&no_right)), Ok(4));
    let no_divisor = node(ParseNodeType::Oper2, ParseOperator::Div, Some(literal(4)), None);
    assert_eq!(eval(&Some(&no_divisor)), Err(EvalError::DivisionByZero));
}

#[test]
fn nested_trees() {
    // (2 + 3) * 4
    let sum = node(ParseNodeType::Oper2, ParseOperator::Plus, Some(literal(2)), Some(literal(3)));
    let product = node(ParseNodeType::Oper2, ParseOperator::Mult, Some(sum), Some(literal(4)));
    assert_eq!(eval(&Some(&product)), Ok(20));
}
