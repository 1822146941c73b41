use bitcalc::listing::parse_tree_lines;
use bitcalc::parse::{ParseNode, ParseNodeType, ParseOperator, ParseTableSt};
use bitcalc::scan::ScanTableSt;

fn tree(text: &str) -> ParseNode {
    let mut st = ScanTableSt::new();
    assert_eq!(st.scan(text), Ok(()));
    let mut pt = ParseTableSt::new();
    pt.parse_program(&mut st).unwrap()
}

#[test]
fn a_literal_is_one_line() {
    assert_eq!(parse_tree_lines(&tree("42")), vec!["Literal: 42"]);
    assert_eq!(parse_tree_lines(&tree("0")), vec!["Literal: 0"]);
    assert_eq!(parse_tree_lines(&tree("0xFFFFFFFF")), vec!["Literal: 4294967295"]);
}

#[test]
fn a_node_comes_before_its_operands() {
    assert_eq!(
        parse_tree_lines(&tree("2+3*-4")),
        vec![
            "Operator: Mult",
            "Operator: Plus",
            "Literal: 2",
            "Literal: 3",
            "Operator: Minus",
            "Literal: 4",
        ]
    );
}

#[test]
fn every_operator_has_its_name() {
    for (text, name) in [
        ("1+1", "Plus"),
        ("1-1", "Minus"),
        ("1*1", "Mult"),
        ("1/1", "Div"),
        ("1>>1", "ShiftRight"),
        ("1<<1", "ShiftLeft"),
        ("1>-1", "ArithShiftRight"),
        ("1&1", "BitAnd"),
        ("1|1", "BitOr"),
        ("1^1", "BitXor"),
    ] {
        assert_eq!(
            parse_tree_lines(&tree(text)),
            vec![format!("Operator: {}", name), "Literal: 1".to_string(), "Literal: 1".to_string()]
        );
    }
    assert_eq!(parse_tree_lines(&tree("~1")), vec!["Operator: BitNot", "Literal: 1"]);
}

#[test]
fn unfilled_nodes_and_empty_slots() {
    let mut pt = ParseTableSt::new();
    let blank = pt.parse_node_new();
    assert_eq!(parse_tree_lines(&blank), vec!["Empty Node"]);
    let lonely = ParseNode {
        type_: ParseNodeType::Oper2,
        value: 0,
        oper: ParseOperator::Div,
        left: None,
        right: Some(Box::new(ParseNode::new(3))),
    };
    assert_eq!(parse_tree_lines(&lonely), vec!["Operator: Div", "Literal: 3"]);
    // Only the left slot of a node with one operand is listed.
    let one = ParseNode {
        type_: ParseNodeType::Oper1,
        value: 0,
        oper: ParseOperator::Minus,
        left: Some(Box::new(ParseNode::new(1))),
        right: Some(Box::new(ParseNode::new(2))),
    };
    assert_eq!(parse_tree_lines(&one), vec!["Operator: Minus", "Literal: 1"]);
}
