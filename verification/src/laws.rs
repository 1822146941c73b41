//! What holds of the stages taken together.
//!
//! The statements here are proved from the specification functions that the
//! contracts of the stages use, so they hold of what the executable
//! functions return.

use vstd::prelude::*;
use crate::eval::{eval_node, eval_operand, EvalError};
use crate::parse::{
    advances, all_digits, binary_operator, chain_at, decode_literal, digits_value, expression_at,
    lemma_chain_advances, lemma_expression_advances, lemma_operand_advances, literal_base,
    operand_at, parse_tokens, unary_operator, ParseError, ParseNode, ParseNodeType, ParseOperator,
};
use crate::pipeline::{evaluate_text, CalcError};
use crate::scan::{
    digit_run, digit_value, end_of_text, is_blank, is_digit, lemma_token_at_bounds, scan_from,
    scan_text, token_at, ScanError, ScanToken, Token,
};

verus! {

/// The tree of an operand that parses is well formed.
pub proof fn lemma_operand_wf(tokens: Seq<Token>, pos: int)
    ensures
        operand_at(tokens, pos) matches Ok((node, _)) ==> node.wf(),
    decreases tokens.len() - pos, 0nat,
{
    if 0 <= pos < tokens.len() {
        if literal_base(tokens[pos].id) is Some {
        } else if unary_operator(tokens[pos].id) is Some {
            lemma_operand_wf(tokens, pos + 1);
        } else if tokens[pos].id == ScanToken::LParen {
            lemma_expression_wf(tokens, pos + 1);
        }
    }
}

/// The tree of an expression that parses is well formed.
pub proof fn lemma_expression_wf(tokens: Seq<Token>, pos: int)
    ensures
        expression_at(tokens, pos) matches Ok((node, _)) ==> node.wf(),
    decreases tokens.len() - pos, 1nat,
{
    lemma_operand_wf(tokens, pos);
    match operand_at(tokens, pos) {
        Ok((left, next)) => {
            if advances(tokens, pos, next) {
                lemma_chain_wf(tokens, next, left);
            }
        },
        Err(_) => {},
    }
}

/// A chain that continues a well-formed tree yields a well-formed tree.
pub proof fn lemma_chain_wf(tokens: Seq<Token>, pos: int, left: ParseNode)
    requires
        left.wf(),
    ensures
        chain_at(tokens, pos, left) matches Ok((node, _)) ==> node.wf(),
    decreases tokens.len() - pos, 0nat,
{
    if 0 <= pos < tokens.len() && binary_operator(tokens[pos].id) is Some {
        lemma_operand_wf(tokens, pos + 1);
        match operand_at(tokens, pos + 1) {
            Ok((right, next)) => {
                if advances(tokens, pos, next) {
                    lemma_chain_wf(
                        tokens,
                        next,
                        ParseNode::binary(binary_operator(tokens[pos].id)->0, left, right),
                    );
                }
            },
            Err(_) => {},
        }
    }
}

/// The tree of an operand has at most as many nodes as the operand has
/// tokens.
pub proof fn lemma_operand_size(tokens: Seq<Token>, pos: int)
    ensures
        operand_at(tokens, pos) matches Ok((node, next)) ==> node.size() <= next - pos,
    decreases tokens.len() - pos, 0nat,
{
    if 0 <= pos < tokens.len() {
        if literal_base(tokens[pos].id) is Some {
        } else if unary_operator(tokens[pos].id) is Some {
            lemma_operand_size(tokens, pos + 1);
        } else if tokens[pos].id == ScanToken::LParen {
            lemma_expression_size(tokens, pos + 1);
        }
    }
}

/// The tree of an expression has at most as many nodes as the expression has
/// tokens, so a tree is never larger than the text it was read from.
pub proof fn lemma_expression_size(tokens: Seq<Token>, pos: int)
    ensures
        expression_at(tokens, pos) matches Ok((node, next)) ==> node.size() <= next - pos,
    decreases tokens.len() - pos, 1nat,
{
    lemma_operand_size(tokens, pos);
    match operand_at(tokens, pos) {
        Ok((left, next)) => {
            if advances(tokens, pos, next) {
                lemma_chain_size(tokens, next, left, pos);
            }
        },
        Err(_) => {},
    }
}

/// A chain adds at most one node for each token it takes.
pub proof fn lemma_chain_size(tokens: Seq<Token>, pos: int, left: ParseNode, start: int)
    requires
        left.size() <= pos - start,
    ensures
        chain_at(tokens, pos, left) matches Ok((node, next)) ==> node.size() <= next - start,
    decreases tokens.len() - pos, 0nat,
{
    if 0 <= pos < tokens.len() && binary_operator(tokens[pos].id) is Some {
        lemma_operand_size(tokens, pos + 1);
        match operand_at(tokens, pos + 1) {
            Ok((right, next)) => {
                if advances(tokens, pos, next) {
                    let joined = ParseNode::binary(binary_operator(tokens[pos].id)->0, left, right);
                    assert(joined.size() == 1 + left.size() + right.size());
                    lemma_chain_size(tokens, next, joined, start);
                }
            },
            Err(_) => {},
        }
    }
}

/// Scanning makes at most one token for each character, and the end of the
/// text.
pub proof fn lemma_scan_length(s: Seq<char>, i: int)
    requires
        0 <= i <= s.len(),
    ensures
        scan_from(s, i).tokens.len() <= s.len() - i + 1,
    decreases s.len() - i,
{
    if i < s.len() {
        if is_blank(s[i]) {
            lemma_scan_length(s, i + 1);
        } else {
            match token_at(s, i) {
                Some((_, len)) => {
                    lemma_token_at_bounds(s, i);
                    lemma_scan_length(s, i + len);
                },
                None => {},
            }
        }
    }
}

/// A tree is never larger than the text it was read from: it has at most as
/// many nodes as the text has characters.
pub proof fn lemma_tree_fits_text(text: Seq<char>)
    ensures
        scan_text(text) matches Ok(tokens) ==> (parse_tokens(tokens) matches Ok(node)
            ==> node.size() <= text.len()),
{
    lemma_scan_length(text, 0);
    lemma_expression_size(scan_from(text, 0).tokens, 0);
}

/// A well-formed tree has a value unless it divides by zero: no operator
/// sits on a node that cannot carry it.
pub proof fn lemma_wf_tree_evaluates(node: ParseNode)
    requires
        node.wf(),
    ensures
        eval_node(node) is Ok || eval_node(node) == Err::<u32, EvalError>(
            EvalError::DivisionByZero,
        ),
    decreases node,
{
    match node.type_ {
        ParseNodeType::Literal => {},
        ParseNodeType::Oper1 => {
            lemma_wf_tree_evaluates(*node.left->0);
        },
        ParseNodeType::Oper2 => {
            lemma_wf_tree_evaluates(*node.left->0);
            lemma_wf_tree_evaluates(*node.right->0);
        },
        ParseNodeType::Empty => {},
    }
}

/// The tree of a program that parses is well formed, so evaluating it gives
/// a value or fails with a division by zero, and with nothing else.
pub proof fn lemma_parsed_program_evaluates(tokens: Seq<Token>)
    ensures
        parse_tokens(tokens) matches Ok(node) ==> node.wf() && (eval_node(node) is Ok || eval_node(
            node,
        ) == Err::<u32, EvalError>(EvalError::DivisionByZero)),
{
    lemma_expression_wf(tokens, 0);
    match parse_tokens(tokens) {
        Ok(node) => {
            lemma_wf_tree_evaluates(node);
        },
        Err(_) => {},
    }
}

/// Flat precedence: in `a op1 b op2 c`, whatever the two operators are, the
/// first one is applied first and its result is the left operand of the
/// second.
pub proof fn lemma_flat_precedence(
    tokens: Seq<Token>,
    pos: int,
    a: ParseNode,
    op1: ParseOperator,
    b: ParseNode,
    op2: ParseOperator,
    c: ParseNode,
    first: int,
    second: int,
    end: int,
)
    requires
        operand_at(tokens, pos) == Ok::<(ParseNode, int), ParseError>((a, first)),
        0 <= first < tokens.len() && binary_operator(tokens[first].id) == Some(op1),
        operand_at(tokens, first + 1) == Ok::<(ParseNode, int), ParseError>((b, second)),
        0 <= second < tokens.len() && binary_operator(tokens[second].id) == Some(op2),
        operand_at(tokens, second + 1) == Ok::<(ParseNode, int), ParseError>((c, end)),
    ensures
        expression_at(tokens, pos) == chain_at(
            tokens,
            end,
            ParseNode::binary(op2, ParseNode::binary(op1, a, b), c),
        ),
{
    lemma_operand_advances(tokens, pos);
    lemma_operand_advances(tokens, first + 1);
    lemma_operand_advances(tokens, second + 1);
    assert(chain_at(tokens, first, a) == chain_at(tokens, second, ParseNode::binary(op1, a, b)));
}

/// Parentheses make an expression one operand: its tree is that of the
/// expression, unchanged.
pub proof fn lemma_parentheses_group(tokens: Seq<Token>, pos: int, node: ParseNode, close: int)
    requires
        0 <= pos < tokens.len() && tokens[pos].id == ScanToken::LParen,
        expression_at(tokens, pos + 1) == Ok::<(ParseNode, int), ParseError>((node, close)),
        0 <= close < tokens.len() && tokens[close].id == ScanToken::RParen,
    ensures
        operand_at(tokens, pos) == Ok::<(ParseNode, int), ParseError>((node, close + 1)),
{
}

/// A unary operator takes the operand right after it and nothing more: a
/// binary operator that follows applies to the result.
pub proof fn lemma_unary_binds_tighter(
    tokens: Seq<Token>,
    pos: int,
    oper: ParseOperator,
    x: ParseNode,
    next: int,
    op: ParseOperator,
    y: ParseNode,
    end: int,
)
    requires
        0 <= pos < tokens.len() && unary_operator(tokens[pos].id) == Some(oper),
        operand_at(tokens, pos + 1) == Ok::<(ParseNode, int), ParseError>((x, next)),
        0 <= next < tokens.len() && binary_operator(tokens[next].id) == Some(op),
        operand_at(tokens, next + 1) == Ok::<(ParseNode, int), ParseError>((y, end)),
    ensures
        expression_at(tokens, pos) == chain_at(
            tokens,
            end,
            ParseNode::binary(op, ParseNode::unary(oper, x), y),
        ),
{
    lemma_operand_advances(tokens, pos);
    lemma_operand_advances(tokens, pos + 1);
    lemma_operand_advances(tokens, next + 1);
}

/// Where every character from `from` on is a digit, the run of digits that
/// starts there goes to the end of the text.
proof fn lemma_digit_run_to_end(s: Seq<char>, from: int, radix: nat)
    requires
        0 <= from <= s.len(),
        all_digits(s.skip(from), radix),
    ensures
        digit_run(s, from, radix) == s.len() - from,
    decreases s.len() - from,
{
    if from < s.len() {
        assert(s[from] == s.skip(from)[0]);
        assert forall|i: int| 0 <= i < s.skip(from + 1).len() implies is_digit(
            #[trigger] s.skip(from + 1)[i],
            radix,
        ) by {
            assert(s.skip(from + 1)[i] == s.skip(from)[i + 1]);
        }
        lemma_digit_run_to_end(s, from + 1, radix);
    }
}

/// A literal on its own scans as one token with the whole text, then the end
/// of the text.
proof fn lemma_literal_scans(text: Seq<char>, base: u32)
    requires
        base == 10 || base == 16 || base == 2,
        decode_literal(text, base) is Some,
    ensures
        scan_text(text) == Ok::<Seq<Token>, ScanError>(
            seq![
                Token {
                    id: if base == 10 {
                        ScanToken::IntLit
                    } else if base == 16 {
                        ScanToken::HexLit
                    } else {
                        ScanToken::BinLit
                    },
                    text,
                },
                end_of_text(),
            ],
        ),
{
    let n = text.len() as int;
    if base == 10 {
        assert(text.skip(0) =~= text);
        assert(is_digit(text[0], 10));
        lemma_digit_run_to_end(text, 0, 10);
        if n > 1 {
            assert(is_digit(text[1], 10));
        }
    } else {
        assert(is_digit(text.skip(2)[0], base as nat));
        lemma_digit_run_to_end(text, 2, base as nat);
    }
    assert(token_at(text, 0) matches Some((_, len)) && len == n);
    assert(text.subrange(0, n) =~= text);
    assert(scan_from(text, n).tokens == seq![end_of_text()]);
    assert(scan_from(text, 0).tokens =~= seq![
        Token {
            id: if base == 10 {
                ScanToken::IntLit
            } else if base == 16 {
                ScanToken::HexLit
            } else {
                ScanToken::BinLit
            },
            text,
        },
        end_of_text(),
    ]);
}

/// A literal evaluates to the number it writes.  For every text that decodes
/// as a decimal, hexadecimal or binary literal, scanning, parsing and
/// evaluating the text gives the decoded value.
pub proof fn lemma_literal_round_trip(text: Seq<char>, base: u32, value: u32)
    requires
        base == 10 || base == 16 || base == 2,
        decode_literal(text, base) == Some(value),
    ensures
        evaluate_text(text) == Ok::<u32, CalcError>(value),
{
    lemma_literal_scans(text, base);
    let tokens = scan_text(text)->Ok_0;
    assert(operand_at(tokens, 0) == Ok::<(ParseNode, int), ParseError>(
        (ParseNode::literal(value), 1),
    ));
    assert(chain_at(tokens, 1, ParseNode::literal(value)) == Ok::<(ParseNode, int), ParseError>(
        (ParseNode::literal(value), 1),
    ));
    assert(parse_tokens(tokens) == Ok::<ParseNode, ParseError>(ParseNode::literal(value)));
}

/// A character that cannot be part of the token before it: it is no digit of
/// any base and not the second character of an operator or of a prefix.
pub open spec fn ends_token(c: char) -> bool {
    digit_value(c) is None && c != '>' && c != '-' && c != '<' && c != 'x' && c != 'X'
}

/// A run of digits in `e` is the same when `t` follows `e`, if `t` starts
/// with no digit.
proof fn lemma_digit_run_append(e: Seq<char>, t: Seq<char>, from: int, radix: nat)
    requires
        0 <= from <= e.len(),
        t.len() > 0,
        !is_digit(t[0], radix),
    ensures
        digit_run(e + t, from, radix) == digit_run(e, from, radix),
    decreases e.len() - from,
{
    if from < e.len() {
        assert((e + t)[from] == e[from]);
        if is_digit(e[from], radix) {
            lemma_digit_run_append(e, t, from + 1, radix);
        }
    } else {
        assert((e + t)[from] == t[0]);
    }
}

/// A token of `e` is the same when `t` follows `e`, if `t` starts with a
/// character that ends a token.
proof fn lemma_token_at_append(e: Seq<char>, t: Seq<char>, i: int)
    requires
        0 <= i < e.len(),
        t.len() > 0,
        ends_token(t[0]),
    ensures
        token_at(e + t, i) == token_at(e, i),
{
    let s = e + t;
    assert(s[i] == e[i]);
    if i + 1 < e.len() {
        assert(s[i + 1] == e[i + 1]);
        lemma_digit_run_append(e, t, i + 2, 16);
        lemma_digit_run_append(e, t, i + 2, 2);
    } else {
        assert(s[i + 1] == t[0]);
    }
    lemma_digit_run_append(e, t, i, 10);
}

/// A text that scans without error ends in the end-of-text token and has it
/// nowhere else.
pub proof fn lemma_scan_ends_once(s: Seq<char>, i: int)
    requires
        scan_from(s, i).error is None,
    ensures
        scan_from(s, i).tokens.len() >= 1,
        scan_from(s, i).tokens.last() == end_of_text(),
        forall|k: int|
            0 <= k < scan_from(s, i).tokens.len() - 1 ==> (#[trigger] scan_from(s, i).tokens[k]).id
                != ScanToken::EOT,
    decreases s.len() - i,
{
    if i < 0 || i >= s.len() {
    } else if is_blank(s[i]) {
        lemma_scan_ends_once(s, i + 1);
    } else {
        match token_at(s, i) {
            Some((id, len)) => {
                lemma_token_at_bounds(s, i);
                lemma_scan_ends_once(s, i + len);
                let rest = scan_from(s, i + len).tokens;
                let all = scan_from(s, i).tokens;
                assert(all =~= seq![Token { id, text: s.subrange(i, i + len) }] + rest);
                assert forall|k: int| 0 <= k < all.len() - 1 implies (#[trigger] all[k]).id
                    != ScanToken::EOT by {
                    if k > 0 {
                        assert(all[k] == rest[k - 1]);
                    }
                }
            },
            None => {},
        }
    }
}

/// Scanning `e` followed by `t`, where `t` starts with a character that ends
/// a token: the tokens of `e` without the end of the text, then what scanning
/// gives from the start of `t` on.
proof fn lemma_scan_append(e: Seq<char>, t: Seq<char>, i: int)
    requires
        0 <= i <= e.len(),
        t.len() > 0,
        ends_token(t[0]),
        scan_from(e, i).error is None,
    ensures
        scan_from(e + t, i).tokens == scan_from(e, i).tokens.drop_last() + scan_from(
            e + t,
            e.len() as int,
        ).tokens,
        scan_from(e + t, i).error == scan_from(e + t, e.len() as int).error,
    decreases e.len() - i,
{
    let s = e + t;
    if i == e.len() {
        assert(scan_from(e, i).tokens.drop_last() =~= Seq::<Token>::empty());
        assert(scan_from(s, i).tokens =~= Seq::<Token>::empty() + scan_from(s, i).tokens);
    } else {
        assert(s[i] == e[i]);
        if is_blank(e[i]) {
            lemma_scan_append(e, t, i + 1);
        } else {
            lemma_token_at_append(e, t, i);
            match token_at(e, i) {
                Some((id, len)) => {
                    lemma_token_at_bounds(e, i);
                    lemma_scan_append(e, t, i + len);
                    lemma_scan_ends_once(e, i + len);
                    assert(s.subrange(i, i + len) =~= e.subrange(i, i + len));
                    let head = seq![Token { id, text: e.subrange(i, i + len) }];
                    let rest = scan_from(e, i + len).tokens;
                    assert((head + rest).drop_last() =~= head + rest.drop_last());
                    assert(scan_from(s, i).tokens =~= (head + rest).drop_last() + scan_from(
                        s,
                        e.len() as int,
                    ).tokens);
                },
                None => {},
            }
        }
    }
}

/// Whether two token sequences are the same up to index `k`.
pub open spec fn same_prefix(a: Seq<Token>, b: Seq<Token>, k: int) -> bool {
    &&& 0 <= k <= a.len()
    &&& k <= b.len()
    &&& forall|j: int| 0 <= j < k ==> a[j] == b[j]
}

/// Where a chain stops, no binary operator follows.
proof fn lemma_chain_stops(tokens: Seq<Token>, pos: int, left: ParseNode)
    requires
        0 <= pos <= tokens.len(),
    ensures
        chain_at(tokens, pos, left) matches Ok((_, next)) ==> !(0 <= next < tokens.len()
            && binary_operator(tokens[next].id) is Some),
    decreases tokens.len() - pos,
{
    if pos < tokens.len() && binary_operator(tokens[pos].id) is Some {
        lemma_operand_advances(tokens, pos + 1);
        match operand_at(tokens, pos + 1) {
            Ok((right, next)) => {
                lemma_chain_stops(
                    tokens,
                    next,
                    ParseNode::binary(binary_operator(tokens[pos].id)->0, left, right),
                );
            },
            Err(_) => {},
        }
    }
}

/// An operand depends on its own tokens only: it parses alike in any
/// sequence that has the same tokens up to its end.
proof fn lemma_operand_stable(a: Seq<Token>, b: Seq<Token>, k: int, pos: int)
    requires
        same_prefix(a, b, k),
        operand_at(a, pos) matches Ok((_, next)) && next <= k,
    ensures
        operand_at(b, pos) == operand_at(a, pos),
    decreases a.len() - pos, 0nat,
{
    lemma_operand_advances(a, pos);
    assert(a[pos] == b[pos]);
    if literal_base(a[pos].id) is Some {
    } else if unary_operator(a[pos].id) is Some {
        lemma_operand_stable(a, b, k, pos + 1);
    } else if a[pos].id == ScanToken::LParen {
        match expression_at(a, pos + 1) {
            Ok((node, next)) => {
                assert(a[next] == b[next]);
                lemma_expression_stable(a, b, k, pos + 1);
            },
            Err(_) => {},
        }
    }
}

/// An expression depends on its own tokens and on the one after it: it
/// parses alike in any sequence that has the same tokens up to that one.
proof fn lemma_expression_stable(a: Seq<Token>, b: Seq<Token>, k: int, pos: int)
    requires
        same_prefix(a, b, k),
        expression_at(a, pos) matches Ok((_, next)) && next < k,
    ensures
        expression_at(b, pos) == expression_at(a, pos),
    decreases a.len() - pos, 1nat,
{
    lemma_operand_advances(a, pos);
    match operand_at(a, pos) {
        Ok((left, first)) => {
            lemma_chain_advances(a, first, left);
            lemma_operand_stable(a, b, k, pos);
            lemma_chain_follows(a, b, k, first, left);
            lemma_chain_stops(a, first, left);
            match chain_at(a, first, left) {
                Ok((node, next)) => {
                    assert(a[next] == b[next]);
                    assert(chain_at(b, next, node) == Ok::<(ParseNode, int), ParseError>(
                        (node, next),
                    ));
                },
                Err(_) => {},
            }
        },
        Err(_) => {},
    }
}

/// A chain that stops at or before index `k` takes the same steps in any
/// sequence that has the same tokens up to `k`: there the chain reaches the
/// same tree at the same index, and goes on from it.
proof fn lemma_chain_follows(a: Seq<Token>, b: Seq<Token>, k: int, pos: int, left: ParseNode)
    requires
        same_prefix(a, b, k),
        0 <= pos <= a.len(),
        chain_at(a, pos, left) matches Ok((_, next)) && next <= k,
    ensures
        chain_at(a, pos, left) matches Ok((node, next)) && chain_at(b, pos, left) == chain_at(
            b,
            next,
            node,
        ),
    decreases a.len() - pos, 0nat,
{
    if pos < a.len() && binary_operator(a[pos].id) is Some {
        lemma_operand_advances(a, pos + 1);
        match operand_at(a, pos + 1) {
            Ok((right, next)) => {
                let joined = ParseNode::binary(binary_operator(a[pos].id)->0, left, right);
                lemma_chain_advances(a, next, joined);
                assert(a[pos] == b[pos]);
                lemma_operand_stable(a, b, k, pos + 1);
                lemma_chain_follows(a, b, k, next, joined);
            },
            Err(_) => {},
        }
    }
}

/// Division by zero is fatal.  For every text that scans and parses as a
/// program, the text followed by `/0` evaluates to the division-by-zero
/// error.
pub proof fn lemma_division_by_zero_is_fatal(expr: Seq<char>)
    requires
        scan_text(expr) matches Ok(tokens) && parse_tokens(tokens) is Ok,
    ensures
        evaluate_text(expr + seq!['/', '0']) == Err::<u32, CalcError>(
            CalcError::Eval(EvalError::DivisionByZero),
        ),
{
    let t = seq!['/', '0'];
    let s = expr + t;
    let n = expr.len() as int;
    let slash = Token { id: ScanToken::Div, text: seq!['/'] };
    let zero = Token { id: ScanToken::IntLit, text: seq!['0'] };

    // The tokens of the longer text.
    assert(s[n] == '/' && s[n + 1] == '0');
    assert(digit_run(s, n + 1, 10) == 1) by {
        assert(digit_run(s, n + 2, 10) == 0);
    }
    assert(token_at(s, n) == Some((ScanToken::Div, 1nat)));
    assert(token_at(s, n + 1) == Some((ScanToken::IntLit, 1nat)));
    assert(s.subrange(n, n + 1) =~= seq!['/']);
    assert(s.subrange(n + 1, n + 2) =~= seq!['0']);
    assert(scan_from(s, n + 2).tokens == seq![end_of_text()]);
    assert(scan_from(s, n + 1).tokens =~= seq![zero, end_of_text()]);
    assert(scan_from(s, n).tokens =~= seq![slash, zero, end_of_text()]);
    lemma_scan_append(expr, t, 0);
    lemma_scan_ends_once(expr, 0);
    let a = scan_from(expr, 0).tokens;
    let b = scan_from(s, 0).tokens;
    let k = a.len() - 1;
    assert(b =~= a.drop_last() + seq![slash, zero, end_of_text()]);
    assert(same_prefix(a, b, k));

    // The tree of the shorter text, and where its expression stops.
    let (node, end) = expression_at(a, 0)->Ok_0;
    lemma_expression_advances(a, 0);
    assert(end == k) by {
        if end < k {
            assert(a[end].id != ScanToken::EOT);
        }
    }
    lemma_operand_advances(a, 0);
    let (left, first) = operand_at(a, 0)->Ok_0;
    lemma_chain_advances(a, first, left);
    lemma_operand_stable(a, b, k, 0);
    lemma_chain_follows(a, b, k, first, left);

    // The longer text goes on with the division.
    assert(b[k] == slash && b[k + 1] == zero && b[k + 2] == end_of_text());
    assert(decode_literal(seq!['0'], 10) == Some(0u32)) by {
        let d = seq!['0'];
        assert(d.drop_last() =~= Seq::<char>::empty());
        assert(digits_value(d.drop_last(), 10) == 0);
        assert(digits_value(d, 10) == 0);
    }
    assert(operand_at(b, k + 1) == Ok::<(ParseNode, int), ParseError>(
        (ParseNode::literal(0), k + 2),
    ));
    let quotient = ParseNode::binary(ParseOperator::Div, node, ParseNode::literal(0));
    assert(chain_at(b, k + 2, quotient) == Ok::<(ParseNode, int), ParseError>((quotient, k + 2)));
    assert(chain_at(b, k, node) == Ok::<(ParseNode, int), ParseError>((quotient, k + 2)));
    assert(expression_at(b, 0) == Ok::<(ParseNode, int), ParseError>((quotient, k + 2)));
    assert(parse_tokens(b) == Ok::<ParseNode, ParseError>(quotient));

    // Dividing by the literal 0 fails, whatever the dividend is.
    lemma_expression_wf(a, 0);
    lemma_wf_tree_evaluates(node);
    assert(eval_operand(quotient.left) == eval_node(node));
    assert(eval_node(ParseNode::literal(0)) == Ok::<u32, EvalError>(0));
    assert(eval_operand(quotient.right) == Ok::<u32, EvalError>(0));
    assert(eval_node(quotient) == Err::<u32, EvalError>(EvalError::DivisionByZero));
}

} // verus!
