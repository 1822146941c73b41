//! The parser: from the token table to an expression tree.
//!
//! The grammar has one precedence level.  An expression is an operand
//! followed by any number of `operator operand` pairs, read strictly from left
//! to right, so `2 + 3 * 4` is `(2 + 3) * 4`:
//!
//! ```text
//! program    := expression EOT
//! expression := operand { binaryOp operand }
//! operand    := intLit | hexLit | binLit
//!             | '-' operand | '~' operand
//!             | '(' expression ')'
//! binaryOp   := '+' '-' '*' '/' '>>' '<<' '>-' '&' '|' '^'
//! ```
//!
//! [`operand_at`], [`expression_at`] and [`program_at`] say what each rule
//! yields at a position of a token sequence; the methods of [`ParseTableSt`]
//! compute exactly that with one token of lookahead and no backtracking.

use vstd::prelude::*;
use crate::scan::{
    char_digit, digit_value, is_digit, literal_prefix, ScanTableSt, ScanToken, Token,
};
use crate::text::to_chars;

verus! {

/// The operator of a tree node.  `Minus` serves as subtraction on a node with
/// two operands and as negation on a node with one; `BitNot` only ever has
/// one operand, all others have two.
#[derive(Debug, Clone, Copy, PartialEq, Eq, Structural)]
pub enum ParseOperator {
    Plus,
    Minus,
    Mult,
    Div,
    ShiftRight,
    ShiftLeft,
    ArithShiftRight,
    BitAnd,
    BitOr,
    BitXor,
    BitNot,
}

/// The shape of a tree node.  `Empty` marks a node that has been made but not
/// filled in yet.
#[derive(Debug, Clone, Copy, PartialEq, Eq, Structural)]
pub enum ParseNodeType {
    Literal,
    Oper1,
    Oper2,
    Empty,
}

/// A node of the expression tree.  A node owns its operands; there are no
/// links back to a parent.
#[derive(Debug, PartialEq, Eq)]
pub struct ParseNode {
    /// Which of the other fields count.
    pub type_: ParseNodeType,
    /// The value of a literal.
    pub value: u32,
    /// The operator of a node with one or two operands.
    pub oper: ParseOperator,
    /// The only operand of an `Oper1` node, the left one of an `Oper2` node.
    pub left: Option<Box<ParseNode>>,
    /// The right operand of an `Oper2` node.
    pub right: Option<Box<ParseNode>>,
}

/// Why a token sequence is not a program.
#[derive(Debug, Clone, Copy, PartialEq, Eq)]
pub enum ParseError {
    /// An operand was expected where none starts.
    BadOperand,
    /// A parenthesised expression is not followed by `)`.
    ExpectingRParen,
    /// The expression is not followed by the end of the text.
    ExpectingEOT,
    /// The text of a literal token does not decode to a 32-bit value: it has
    /// no digits after its prefix, a character that is no digit of its base,
    /// or a value above `u32::MAX`.
    InvalidLiteral,
}

impl ParseNode {
    /// A node as [`ParseTableSt::parse_node_new`] makes it.
    pub open spec fn blank() -> ParseNode {
        ParseNode {
            type_: ParseNodeType::Empty,
            value: 0,
            oper: ParseOperator::Plus,
            left: None,
            right: None,
        }
    }

    /// The literal node of `value`.
    pub open spec fn literal(value: u32) -> ParseNode {
        ParseNode {
            type_: ParseNodeType::Literal,
            value,
            oper: ParseOperator::Plus,
            left: None,
            right: None,
        }
    }

    /// The node that applies `oper` to one operand.
    pub open spec fn unary(oper: ParseOperator, operand: ParseNode) -> ParseNode {
        ParseNode {
            type_: ParseNodeType::Oper1,
            value: 0,
            oper,
            left: Some(Box::new(operand)),
            right: None,
        }
    }

    /// The node that applies `oper` to two operands.
    pub open spec fn binary(oper: ParseOperator, left: ParseNode, right: ParseNode) -> ParseNode {
        ParseNode {
            type_: ParseNodeType::Oper2,
            value: 0,
            oper,
            left: Some(Box::new(left)),
            right: Some(Box::new(right)),
        }
    }

    /// The number of nodes of the tree.
    pub open spec fn size(self) -> nat
        decreases self,
    {
        1 + (match self.left {
            Some(l) => l.size(),
            None => 0,
        }) + (match self.right {
            Some(r) => r.size(),
            None => 0,
        })
    }

    /// The shape that the grammar gives its trees: a literal has no operand,
    /// an `Oper1` node has exactly one operand under `-` or `~`, an `Oper2`
    /// node has exactly two under a binary operator, and every operand is
    /// itself well formed.
    pub open spec fn wf(self) -> bool
        decreases self,
    {
        match self.type_ {
            ParseNodeType::Literal => self.left is None && self.right is None,
            ParseNodeType::Oper1 => {
                &&& self.oper == ParseOperator::Minus || self.oper == ParseOperator::BitNot
                &&& self.right is None
                &&& self.left matches Some(operand) && operand.wf()
            },
            ParseNodeType::Oper2 => {
                &&& self.oper != ParseOperator::BitNot
                &&& self.left matches Some(l) && l.wf()
                &&& self.right matches Some(r) && r.wf()
            },
            ParseNodeType::Empty => false,
        }
    }

    /// A literal node.
    pub fn new(value: u32) -> (node: Self)
        ensures
            node == ParseNode::literal(value),
    {
        ParseNode {
            type_: ParseNodeType::Literal,
            value,
            oper: ParseOperator::Plus,
            left: None,
            right: None,
        }
    }
}

impl Clone for ParseNode {
    /// A copy of the whole tree.
    fn clone(&self) -> (copy: Self)
        ensures
            copy == *self,
        decreases *self,
    {
        ParseNode {
            type_: self.type_,
            value: self.value,
            oper: self.oper,
            left: match &self.left {
                Some(node) => Some(Box::new((**node).clone())),
                None => None,
            },
            right: match &self.right {
                Some(node) => Some(Box::new((**node).clone())),
                None => None,
            },
        }
    }
}

/// The value of a character that is taken for a digit: 0 for one that is none.
pub open spec fn digit_of(c: char) -> nat {
    match digit_value(c) {
        Some(d) => d,
        None => 0,
    }
}

/// The number that `digits` writes in base `radix`, most significant digit
/// first.
pub open spec fn digits_value(digits: Seq<char>, radix: nat) -> nat
    decreases digits.len(),
{
    if digits.len() == 0 {
        0
    } else {
        digits_value(digits.drop_last(), radix) * radix + digit_of(digits.last())
    }
}

/// Whether every character of `digits` is a digit of base `radix`.
pub open spec fn all_digits(digits: Seq<char>, radix: nat) -> bool {
    forall|i: int| 0 <= i < digits.len() ==> is_digit(#[trigger] digits[i], radix)
}

/// The 32-bit value of a non-empty string of base-`radix` digits, if it has
/// one.
pub open spec fn decode_digits(digits: Seq<char>, radix: nat) -> Option<u32> {
    if digits.len() > 0 && all_digits(digits, radix) && digits_value(digits, radix) <= u32::MAX {
        Some(digits_value(digits, radix) as u32)
    } else {
        None
    }
}

/// The value of the text of a literal token in base 10, 16 or 2.  A decimal
/// literal is all digits; the others are decoded after their two-character
/// prefix, which must be the one of their base.
pub open spec fn decode_literal(text: Seq<char>, base: u32) -> Option<u32> {
    if base == 10 {
        decode_digits(text, 10)
    } else if base == 16 || base == 2 {
        if text.len() >= 2 && literal_prefix(text[0], text[1]) == Some(base as nat) {
            decode_digits(text.skip(2), base as nat)
        } else {
            None
        }
    } else {
        None
    }
}

/// A longer string of digits writes a number that is no smaller.
pub proof fn lemma_digits_value_prefix(digits: Seq<char>, k: int, radix: nat)
    requires
        0 <= k <= digits.len(),
        radix >= 1,
    ensures
        digits_value(digits.take(k), radix) <= digits_value(digits, radix),
    decreases digits.len() - k,
{
    if k == digits.len() {
        assert(digits.take(k) =~= digits);
    } else {
        lemma_digits_value_prefix(digits.drop_last(), k, radix);
        assert(digits.drop_last().take(k) =~= digits.take(k));
        assert(digits_value(digits.drop_last(), radix) * radix >= digits_value(
            digits.drop_last(),
            radix,
        )) by (nonlinear_arith)
            requires
                radix >= 1,
        ;
    }
}

/// Decodes the digits of `chars` from index `from` on.
pub fn decode_digits_from(chars: &Vec<char>, from: usize, radix: u32) -> (value: Option<u32>)
    requires
        from <= chars.len(),
        2 <= radix <= 16,
    ensures
        value == decode_digits(chars@.skip(from as int), radix as nat),
{
    let ghost digits = chars@.skip(from as int);
    if from >= chars.len() {
        return None;
    }
    let mut acc: u64 = 0;
    let mut i: usize = from;
    while i < chars.len()
        invariant
            from <= i <= chars.len(),
            2 <= radix <= 16,
            digits == chars@.skip(from as int),
            acc == digits_value(digits.take(i - from), radix as nat),
            acc <= u32::MAX,
            all_digits(digits.take(i - from), radix as nat),
        decreases chars.len() - i,
    {
        let ghost longer = digits.take(i - from + 1);
        assert(longer.drop_last() =~= digits.take(i - from));
        assert(longer.last() == chars@[i as int]);
        match char_digit(chars[i]) {
            Some(d) => {
                if d >= radix {
                    assert(!is_digit(digits[i - from], radix as nat));
                    return None;
                }
                assert(acc * radix + d <= 0xFFFF_FFFF * 16 + 15) by (nonlinear_arith)
                    requires
                        acc <= 0xFFFF_FFFF,
                        radix <= 16,
                        d < 16,
                ;
                acc = acc * (radix as u64) + (d as u64);
                assert(acc == digits_value(longer, radix as nat));
                if acc > 0xFFFF_FFFF {
                    proof {
                        lemma_digits_value_prefix(digits, i - from + 1, radix as nat);
                    }
                    return None;
                }
            },
            None => {
                assert(!is_digit(digits[i - from], radix as nat));
                return None;
            },
        }
        i = i + 1;
    }
    assert(digits.take(i - from) =~= digits);
    Some(acc as u32)
}

/// The value of a decimal literal: a non-empty string of decimal digits that
/// writes a number of at most 32 bits.
pub fn parse_literal_value_base_10(value: &str) -> (decoded: Option<u32>)
    ensures
        decoded == decode_literal(value@, 10),
{
    let chars = to_chars(value);
    assert(chars@.skip(0) =~= chars@);
    decode_digits_from(&chars, 0, 10)
}

/// The value of a hexadecimal literal: `0x` or `0X`, then a non-empty string
/// of hexadecimal digits that writes a number of at most 32 bits.
pub fn parse_literal_value_base_16(value: &str) -> (decoded: Option<u32>)
    ensures
        decoded == decode_literal(value@, 16),
{
    let chars = to_chars(value);
    if chars.len() >= 2 && chars[0] == '0' && (chars[1] == 'x' || chars[1] == 'X') {
        decode_digits_from(&chars, 2, 16)
    } else {
        None
    }
}

/// The value of a binary literal: `0b` or `0B`, then a non-empty string of
/// the digits 0 and 1 that writes a number of at most 32 bits.
pub fn parse_literal_value_base_2(value: &str) -> (decoded: Option<u32>)
    ensures
        decoded == decode_literal(value@, 2),
{
    let chars = to_chars(value);
    if chars.len() >= 2 && chars[0] == '0' && (chars[1] == 'b' || chars[1] == 'B') {
        decode_digits_from(&chars, 2, 2)
    } else {
        None
    }
}

/// The binary operator that a token kind stands for, if it is one.
pub open spec fn binary_operator(id: ScanToken) -> Option<ParseOperator> {
    match id {
        ScanToken::Plus => Some(ParseOperator::Plus),
        ScanToken::Minus => Some(ParseOperator::Minus),
        ScanToken::Mult => Some(ParseOperator::Mult),
        ScanToken::Div => Some(ParseOperator::Div),
        ScanToken::ShiftRight => Some(ParseOperator::ShiftRight),
        ScanToken::ShiftLeft => Some(ParseOperator::ShiftLeft),
        ScanToken::ArithShiftRight => Some(ParseOperator::ArithShiftRight),
        ScanToken::BitAnd => Some(ParseOperator::BitAnd),
        ScanToken::BitOr => Some(ParseOperator::BitOr),
        ScanToken::BitXor => Some(ParseOperator::BitXor),
        _ => None,
    }
}

/// The unary operator that a token kind stands for at the start of an
/// operand, if it is one: `-` negates and `~` complements.
pub open spec fn unary_operator(id: ScanToken) -> Option<ParseOperator> {
    match id {
        ScanToken::Minus => Some(ParseOperator::Minus),
        ScanToken::BitNot => Some(ParseOperator::BitNot),
        _ => None,
    }
}

/// The base in which the text of a literal token is decoded.
pub open spec fn literal_base(id: ScanToken) -> Option<u32> {
    match id {
        ScanToken::IntLit => Some(10u32),
        ScanToken::HexLit => Some(16u32),
        ScanToken::BinLit => Some(2u32),
        _ => None,
    }
}

/// Whether a rule that started at `pos` and stopped at `next` has taken at
/// least one token and stayed within the sequence.  Every operand and
/// expression that parses does ([`lemma_operand_advances`],
/// [`lemma_expression_advances`]); the definitions below test it so that they
/// visibly terminate.
pub open spec fn advances(tokens: Seq<Token>, pos: int, next: int) -> bool {
    pos < next <= tokens.len()
}

/// The rule `operand` at index `pos`: the tree of the operand and the index
/// of the token after it, or the error that ends the parse.
pub open spec fn operand_at(tokens: Seq<Token>, pos: int) -> Result<(ParseNode, int), ParseError>
    decreases tokens.len() - pos, 0nat,
{
    if pos < 0 || pos >= tokens.len() {
        Err(ParseError::BadOperand)
    } else if literal_base(tokens[pos].id) is Some {
        match decode_literal(tokens[pos].text, literal_base(tokens[pos].id)->0) {
            Some(value) => Ok((ParseNode::literal(value), pos + 1)),
            None => Err(ParseError::InvalidLiteral),
        }
    } else if unary_operator(tokens[pos].id) is Some {
        match operand_at(tokens, pos + 1) {
            Ok((operand, next)) => Ok(
                (ParseNode::unary(unary_operator(tokens[pos].id)->0, operand), next),
            ),
            Err(e) => Err(e),
        }
    } else if tokens[pos].id == ScanToken::LParen {
        match expression_at(tokens, pos + 1) {
            Ok((node, next)) => if 0 <= next < tokens.len() && tokens[next].id
                == ScanToken::RParen {
                Ok((node, next + 1))
            } else {
                Err(ParseError::ExpectingRParen)
            },
            Err(e) => Err(e),
        }
    } else {
        Err(ParseError::BadOperand)
    }
}

/// The rule `expression` at index `pos`: an operand, then the chain of
/// operators and operands that follows it.
pub open spec fn expression_at(tokens: Seq<Token>, pos: int) -> Result<
    (ParseNode, int),
    ParseError,
>
    decreases tokens.len() - pos, 1nat,
{
    match operand_at(tokens, pos) {
        Ok((left, next)) => if advances(tokens, pos, next) {
            chain_at(tokens, next, left)
        } else {
            Err(ParseError::BadOperand)
        },
        Err(e) => Err(e),
    }
}

/// The rest of an expression whose operands up to index `pos` make the tree
/// `left`.  A binary operator at `pos` takes `left` and the operand after it
/// as its two operands, whatever the operator is, and the chain goes on with
/// that tree; any other token ends the expression.
pub open spec fn chain_at(tokens: Seq<Token>, pos: int, left: ParseNode) -> Result<
    (ParseNode, int),
    ParseError,
>
    decreases tokens.len() - pos, 0nat,
{
    if 0 <= pos < tokens.len() && binary_operator(tokens[pos].id) is Some {
        match operand_at(tokens, pos + 1) {
            Ok((right, next)) => if advances(tokens, pos, next) {
                chain_at(
                    tokens,
                    next,
                    ParseNode::binary(binary_operator(tokens[pos].id)->0, left, right),
                )
            } else {
                Err(ParseError::BadOperand)
            },
            Err(e) => Err(e),
        }
    } else {
        Ok((left, pos))
    }
}

/// The rule `program` at index `pos`: an expression that is followed by the
/// end-of-text token.  On success the index is that of the end-of-text token.
pub open spec fn program_at(tokens: Seq<Token>, pos: int) -> Result<(ParseNode, int), ParseError> {
    match expression_at(tokens, pos) {
        Ok((node, next)) => if 0 <= next < tokens.len() && tokens[next].id == ScanToken::EOT {
            Ok((node, next))
        } else {
            Err(ParseError::ExpectingEOT)
        },
        Err(e) => Err(e),
    }
}

/// The tree of a whole token sequence, or the error that ends the parse.
pub open spec fn parse_tokens(tokens: Seq<Token>) -> Result<ParseNode, ParseError> {
    match program_at(tokens, 0) {
        Ok((node, _)) => Ok(node),
        Err(e) => Err(e),
    }
}

/// An operand that parses takes at least one token.
pub proof fn lemma_operand_advances(tokens: Seq<Token>, pos: int)
    ensures
        operand_at(tokens, pos) matches Ok((_, next)) ==> advances(tokens, pos, next),
    decreases tokens.len() - pos, 0nat,
{
    if 0 <= pos < tokens.len() {
        if literal_base(tokens[pos].id) is Some {
        } else if unary_operator(tokens[pos].id) is Some {
            lemma_operand_advances(tokens, pos + 1);
        } else if tokens[pos].id == ScanToken::LParen {
            lemma_expression_advances(tokens, pos + 1);
        }
    }
}

/// An expression that parses takes at least one token.
pub proof fn lemma_expression_advances(tokens: Seq<Token>, pos: int)
    ensures
        expression_at(tokens, pos) matches Ok((_, next)) ==> advances(tokens, pos, next),
    decreases tokens.len() - pos, 1nat,
{
    lemma_operand_advances(tokens, pos);
    match operand_at(tokens, pos) {
        Ok((left, next)) => {
            if advances(tokens, pos, next) {
                lemma_chain_advances(tokens, next, left);
            }
        },
        Err(_) => {},
    }
}

/// A chain that parses stops at or after its start, within the sequence.
pub proof fn lemma_chain_advances(tokens: Seq<Token>, pos: int, left: ParseNode)
    requires
        0 <= pos <= tokens.len(),
    ensures
        chain_at(tokens, pos, left) matches Ok((_, next)) ==> pos <= next <= tokens.len(),
    decreases tokens.len() - pos, 0nat,
{
    if pos < tokens.len() && binary_operator(tokens[pos].id) is Some {
        lemma_operand_advances(tokens, pos + 1);
        match operand_at(tokens, pos + 1) {
            Ok((right, next)) => {
                lemma_chain_advances(
                    tokens,
                    next,
                    ParseNode::binary(binary_operator(tokens[pos].id)->0, left, right),
                );
            },
            Err(_) => {},
        }
    }
}

/// The record of the nodes that a parse has made.  Each node is recorded as
/// it is made, before it is filled in, so every entry is a blank node.
pub struct ParseTableSt {
    pub table: Vec<ParseNode>,
    pub len: usize,
}

impl ParseTableSt {
    /// The counter agrees with the record.
    pub open spec fn wf(&self) -> bool {
        self.len == self.table@.len()
    }

    /// What a parsing method leaves as it was and how it moves on: the tokens
    /// stay, the cursor does not go back, and the record grows by blank nodes
    /// only.
    pub open spec fn parse_step(
        before: &ParseTableSt,
        after: &ParseTableSt,
        st_before: &ScanTableSt,
        st_after: &ScanTableSt,
    ) -> bool {
        &&& after.wf()
        &&& before.len <= after.len
        &&& forall|i: int| 0 <= i < before.len ==> after.table@[i] == before.table@[i]
        &&& forall|i: int| before.len <= i < after.len ==> after.table@[i] == ParseNode::blank()
        &&& st_after.table == st_before.table
        &&& st_after.len == st_before.len
        &&& st_before.cur <= st_after.cur
    }

    /// An empty record.
    pub fn new() -> (pt: Self)
        ensures
            pt.wf(),
            pt.len == 0,
    {
        ParseTableSt { table: Vec::new(), len: 0 }
    }

    /// Makes a blank node and records it.
    pub fn parse_node_new(&mut self) -> (node: ParseNode)
        requires
            old(self).wf(),
        ensures
            final(self).wf(),
            node == ParseNode::blank(),
            final(self).table@ == old(self).table@.push(ParseNode::blank()),
            final(self).len == old(self).len + 1,
    {
        let node = ParseNode {
            type_: ParseNodeType::Empty,
            value: 0,
            oper: ParseOperator::Plus,
            left: None,
            right: None,
        };
        self.table.push(node.clone());
        self.len = self.table.len();
        node
    }

    /// Parses a whole program at the cursor: an expression that is followed
    /// by the end of the text.  On success the cursor stands after the
    /// end-of-text token.
    pub fn parse_program(&mut self, st: &mut ScanTableSt) -> (result: Result<ParseNode, ParseError>)
        requires
            old(self).wf(),
        ensures
            Self::parse_step(old(self), final(self), old(st), final(st)),
            match program_at(old(st).tokens(), old(st).cur as int) {
                Ok((node, next)) => {
                    &&& result == Ok::<ParseNode, ParseError>(node)
                    &&& final(st).cur == next + 1
                    &&& final(self).len == old(self).len + node.size()
                },
                Err(e) => result == Err::<ParseNode, ParseError>(e),
            },
    {
        let np1 = self.parse_expression(st)?;
        if !st.accept(ScanToken::EOT) {
            return Err(ParseError::ExpectingEOT);
        }
        Ok(np1)
    }

    /// Parses an expression at the cursor: an operand, then operators and
    /// operands for as long as a binary operator follows.  All binary
    /// operators bind alike and group to the left.  On success the cursor
    /// stands at the first token after the expression.
    pub fn parse_expression(&mut self, st: &mut ScanTableSt) -> (result: Result<
        ParseNode,
        ParseError,
    >)
        requires
            old(self).wf(),
        ensures
            Self::parse_step(old(self), final(self), old(st), final(st)),
            match expression_at(old(st).tokens(), old(st).cur as int) {
                Ok((node, next)) => {
                    &&& result == Ok::<ParseNode, ParseError>(node)
                    &&& final(st).cur == next
                    &&& final(self).len == old(self).len + node.size()
                },
                Err(e) => result == Err::<ParseNode, ParseError>(e),
            },
        decreases old(st).table@.len() - old(st).cur, 1nat,
    {
        let ghost tokens = st.tokens();
        let ghost start = st.cur as int;
        proof {
            lemma_operand_advances(tokens, start);
        }
        let mut np1 = self.parse_operand(st)?;
        loop
            invariant
                self.wf(),
                st.tokens() == tokens,
                tokens.len() == st.table@.len(),
                st.table == old(st).table,
                st.len == old(st).len,
                start < st.cur <= tokens.len(),
                start == old(st).cur,
                old(self).wf(),
                old(self).len <= self.len,
                forall|i: int| 0 <= i < old(self).len ==> self.table@[i] == old(self).table@[i],
                forall|i: int|
                    old(self).len <= i < self.len ==> self.table@[i] == ParseNode::blank(),
                self.len == old(self).len + np1.size(),
                expression_at(tokens, start) == chain_at(tokens, st.cur as int, np1),
            ensures
                chain_at(tokens, st.cur as int, np1) == Ok::<(ParseNode, int), ParseError>(
                    (np1, st.cur as int),
                ),
            decreases tokens.len() - st.cur,
        {
            let operator = match st.get(0) {
                Some(token) => self.get_operator(token.id),
                None => None,
            };
            match operator {
                Some(oper) => {
                    let ghost at = st.cur as int;
                    let ghost left = np1;
                    proof {
                        lemma_operand_advances(tokens, at + 1);
                    }
                    st.accept(ScanToken::Any);
                    let mut np2 = self.parse_node_new();
                    np2.type_ = ParseNodeType::Oper2;
                    np2.oper = oper;
                    np2.left = Some(Box::new(np1));
                    let right = self.parse_operand(st)?;
                    np2.right = Some(Box::new(right));
                    np1 = np2;
                    assert(np1 == ParseNode::binary(oper, left, right));
                },
                None => {
                    break;
                },
            }
        }
        Ok(np1)
    }

    /// The binary operator that a token kind stands for, if it is one.
    pub fn get_operator(&self, token: ScanToken) -> (oper: Option<ParseOperator>)
        ensures
            oper == binary_operator(token),
    {
        match token {
            ScanToken::Plus => Some(ParseOperator::Plus),
            ScanToken::Minus => Some(ParseOperator::Minus),
            ScanToken::Mult => Some(ParseOperator::Mult),
            ScanToken::Div => Some(ParseOperator::Div),
            ScanToken::ShiftRight => Some(ParseOperator::ShiftRight),
            ScanToken::ShiftLeft => Some(ParseOperator::ShiftLeft),
            ScanToken::ArithShiftRight => Some(ParseOperator::ArithShiftRight),
            ScanToken::BitAnd => Some(ParseOperator::BitAnd),
            ScanToken::BitOr => Some(ParseOperator::BitOr),
            ScanToken::BitXor => Some(ParseOperator::BitXor),
            _ => None,
        }
    }

    /// Parses an operand at the cursor: a literal, an operand under `-` or
    /// `~`, or an expression in parentheses.  On success the cursor stands at
    /// the first token after the operand.
    pub fn parse_operand(&mut self, st: &mut ScanTableSt) -> (result: Result<ParseNode, ParseError>)
        requires
            old(self).wf(),
        ensures
            Self::parse_step(old(self), final(self), old(st), final(st)),
            match operand_at(old(st).tokens(), old(st).cur as int) {
                Ok((node, next)) => {
                    &&& result == Ok::<ParseNode, ParseError>(node)
                    &&& final(st).cur == next
                    &&& final(self).len == old(self).len + node.size()
                },
                Err(e) => result == Err::<ParseNode, ParseError>(e),
            },
        decreases old(st).table@.len() - old(st).cur, 0nat,
    {
        if st.accept(ScanToken::IntLit) {
            self.parse_literal_value(st, 10)
        } else if st.accept(ScanToken::HexLit) {
            self.parse_literal_value(st, 16)
        } else if st.accept(ScanToken::BinLit) {
            self.parse_literal_value(st, 2)
        } else if st.accept(ScanToken::Minus) {
            let mut np1 = self.parse_node_new();
            np1.type_ = ParseNodeType::Oper1;
            np1.oper = ParseOperator::Minus;
            let operand = self.parse_operand(st)?;
            np1.left = Some(Box::new(operand));
            assert(np1 == ParseNode::unary(ParseOperator::Minus, operand));
            Ok(np1)
        } else if st.accept(ScanToken::BitNot) {
            let mut np1 = self.parse_node_new();
            np1.type_ = ParseNodeType::Oper1;
            np1.oper = ParseOperator::BitNot;
            let operand = self.parse_operand(st)?;
            np1.left = Some(Box::new(operand));
            assert(np1 == ParseNode::unary(ParseOperator::BitNot, operand));
            Ok(np1)
        } else if st.accept(ScanToken::LParen) {
            let np1 = self.parse_expression(st)?;
            if !st.accept(ScanToken::RParen) {
                return Err(ParseError::ExpectingRParen);
            }
            Ok(np1)
        } else {
            Err(ParseError::BadOperand)
        }
    }

    /// Makes the literal node of the token just before the cursor, whose text
    /// is decoded in `base`.  Nothing is recorded when there is no such token
    /// or its text does not decode.
    fn parse_literal_value(&mut self, st: &ScanTableSt, base: u32) -> (result: Result<
        ParseNode,
        ParseError,
    >)
        requires
            old(self).wf(),
            base == 10 || base == 16 || base == 2,
        ensures
            final(self).wf(),
            match (if 0 < st.cur <= st.table@.len() {
                decode_literal(st.tokens()[st.cur - 1].text, base)
            } else {
                None
            }) {
                Some(value) => {
                    &&& result == Ok::<ParseNode, ParseError>(ParseNode::literal(value))
                    &&& final(self).table@ == old(self).table@.push(ParseNode::blank())
                    &&& final(self).len == old(self).len + 1
                },
                None => {
                    &&& result == Err::<ParseNode, ParseError>(ParseError::InvalidLiteral)
                    &&& final(self).table@ == old(self).table@
                    &&& final(self).len == old(self).len
                },
            },
    {
        let decoded = match st.get_last(1) {
            Some(token) => {
                if base == 10 {
                    parse_literal_value_base_10(token.value.as_str())
                } else if base == 16 {
                    parse_literal_value_base_16(token.value.as_str())
                } else {
                    parse_literal_value_base_2(token.value.as_str())
                }
            },
            None => None,
        };
        match decoded {
            Some(value) => {
                let mut np1 = self.parse_node_new();
                np1.type_ = ParseNodeType::Literal;
                np1.value = value;
                Ok(np1)
            },
            None => Err(ParseError::InvalidLiteral),
        }
    }
}

} // verus!
