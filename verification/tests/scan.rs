use bitcalc::scan::{char_digit, is_digit_char, ScanError, ScanTableSt, ScanToken};

fn scanned(text: &str) -> Vec<(ScanToken, String)> {
    let mut st = ScanTableSt::new();
    assert_eq!(st.scan(text), Ok(()));
    assert_eq!(st.len, st.table.len());
    assert_eq!(st.cur, 0);
    st.table.iter().map(|t| (t.id, t.value.clone())).collect()
}

fn token(id: ScanToken, text: &str) -> (ScanToken, String) {
    (id, text.to_string())
}

fn end() -> (ScanToken, String) {
    (ScanToken::EOT, "\0".to_string())
}

#[test]
fn empty_text_is_only_the_end() {
    assert_eq!(scanned(""), vec![end()]);
    assert_eq!(scanned(" \t  "), vec![end()]);
}

#[test]
fn single_character_operators() {
    assert_eq!(
        scanned("+-*/&|^~()"),
        vec![
            token(ScanToken::Plus, "+"),
            token(ScanToken::Minus, "-"),
            token(ScanToken::Mult, "*"),
            token(ScanToken::Div, "/"),
            token(ScanToken::BitAnd, "&"),
            token(ScanToken::BitOr, "|"),
            token(ScanToken::BitXor, "^"),
            token(ScanToken::BitNot, "~"),
            token(ScanToken::LParen, "("),
            token(ScanToken::RParen, ")"),
            end(),
        ]
    );
}

#[test]
fn two_character_operators_take_both_characters() {
    assert_eq!(
        scanned("1>>2<<3>-4"),
        vec![
            token(ScanToken::IntLit, "1"),
            token(ScanToken::ShiftRight, ">>"),
            token(ScanToken::IntLit, "2"),
            token(ScanToken::ShiftLeft, "<<"),
            token(ScanToken::IntLit, "3"),
            token(ScanToken::ArithShiftRight, ">-"),
            token(ScanToken::IntLit, "4"),
            end(),
        ]
    );
}

#[test]
fn arithmetic_shift_before_a_negative_operand() {
    assert_eq!(
        scanned("8>--1"),
        vec![
            token(ScanToken::IntLit, "8"),
            token(ScanToken::ArithShiftRight, ">-"),
            token(ScanToken::Minus, "-"),
            token(ScanToken::IntLit, "1"),
            end(),
        ]
    );
}

#[test]
fn literals_keep_their_whole_text() {
    assert_eq!(
        scanned("42 0x1F 0XaB 0b101 0B1 007"),
        vec![
            token(ScanToken::IntLit, "42"),
            token(ScanToken::HexLit, "0x1F"),
            token(ScanToken::HexLit, "0XaB"),
            token(ScanToken::BinLit, "0b101"),
            token(ScanToken::BinLit, "0B1"),
            token(ScanToken::IntLit, "007"),
            end(),
        ]
    );
}

#[test]
fn literal_runs_are_maximal_and_stop_at_other_digits() {
    // A binary literal stops at the first character that is not 0 or 1; the
    // decimal digits after it are a literal of their own.
    assert_eq!(
        scanned("0b1012"),
        vec![token(ScanToken::BinLit, "0b101"), token(ScanToken::IntLit, "2"), end()]
    );
    // A prefix without digits is still a token; the parser refuses it.
    assert_eq!(scanned("0x"), vec![token(ScanToken::HexLit, "0x"), end()]);
    assert_eq!(scanned("0b+"), vec![
        token(ScanToken::BinLit, "0b"),
        token(ScanToken::Plus, "+"),
        end(),
    ]);
}

#[test]
fn blanks_separate_tokens() {
    assert_eq!(
        scanned("1 2\t3"),
        vec![
            token(ScanToken::IntLit, "1"),
            token(ScanToken::IntLit, "2"),
            token(ScanToken::IntLit, "3"),
            end(),
        ]
    );
}

#[test]
fn invalid_characters_stop_the_scan() {
    let mut st = ScanTableSt::new();
    assert_eq!(st.scan("1+a"), Err(ScanError::InvalidChar('a')));
    // The tokens before the character are in the table; no end of text is.
    assert_eq!(st.table.len(), 2);
    assert_eq!(st.len, 2);
    assert_eq!(st.table[0].id, ScanToken::IntLit);
    assert_eq!(st.table[1].id, ScanToken::Plus);

    for (text, c) in [
        ("1 > 2", '>'),
        ("1>", '>'),
        ("1 < 2", '<'),
        ("1<-2", '<'),
        ("x", 'x'),
        ("1\n2", '\n'),
        ("1.5", '.'),
        ("\u{e9}", '\u{e9}'),
    ] {
        let mut st = ScanTableSt::new();
        assert_eq!(st.scan(text), Err(ScanError::InvalidChar(c)), "{:?}", text);
    }
}

#[test]
fn scanning_adds_to_what_the_table_holds() {
    let mut st = ScanTableSt::new();
    assert_eq!(st.scan("1"), Ok(()));
    assert_eq!(st.scan("~"), Ok(()));
    let ids: Vec<ScanToken> = st.table.iter().map(|t| t.id).collect();
    assert_eq!(
        ids,
        vec![ScanToken::IntLit, ScanToken::EOT, ScanToken::BitNot, ScanToken::EOT]
    );
    assert_eq!(st.len, 4);
}

#[test]
fn init_resets_the_counters_only() {
    let mut st = ScanTableSt::new();
    assert_eq!(st.scan("1+2"), Ok(()));
    assert!(st.accept(ScanToken::IntLit));
    st.init();
    assert_eq!(st.len, 0);
    assert_eq!(st.cur, 0);
    assert_eq!(st.table.len(), 4);
}

#[test]
fn new_token_is_blank_and_can_be_filled() {
    let mut st = ScanTableSt::new();
    {
        let token = st.new_token();
        assert_eq!(token.id, ScanToken::Any);
        assert_eq!(token.value, "");
        token.id = ScanToken::Plus;
        token.value.push('+');
    }
    assert_eq!(st.len, 1);
    assert_eq!(st.table.len(), 1);
    assert_eq!(st.table[0].id, ScanToken::Plus);
    assert_eq!(st.table[0].value, "+");
}

#[test]
fn accept_moves_only_on_a_match() {
    let mut st = ScanTableSt::new();
    assert_eq!(st.scan("7+"), Ok(()));
    assert!(!st.accept(ScanToken::Plus));
    assert_eq!(st.cur, 0);
    assert!(st.accept(ScanToken::IntLit));
    assert_eq!(st.cur, 1);
    assert!(st.accept(ScanToken::Any));
    assert_eq!(st.cur, 2);
    assert!(st.accept(ScanToken::EOT));
    assert_eq!(st.cur, 3);
    // Past the end nothing matches but the wildcard.
    assert!(!st.accept(ScanToken::EOT));
    assert_eq!(st.cur, 3);
    assert!(st.accept(ScanToken::Any));
    assert_eq!(st.cur, 4);
}

#[test]
fn get_looks_around_the_cursor() {
    let mut st = ScanTableSt::new();
    assert_eq!(st.scan("7+"), Ok(()));
    assert_eq!(st.get(0).map(|t| t.id), Some(ScanToken::IntLit));
    assert_eq!(st.get(2).map(|t| t.id), Some(ScanToken::EOT));
    assert!(st.get(3).is_none());
    assert!(st.get(usize::MAX).is_none());
    assert!(st.get_last(1).is_none());
    assert!(st.accept(ScanToken::Any));
    assert_eq!(st.get_last(1).map(|t| t.id), Some(ScanToken::IntLit));
    assert_eq!(st.get_last(0).map(|t| t.id), Some(ScanToken::Plus));
    assert!(st.get_last(2).is_none());
}

#[test]
fn digits_of_each_base() {
    assert_eq!(char_digit('0'), Some(0));
    assert_eq!(char_digit('9'), Some(9));
    assert_eq!(char_digit('a'), Some(10));
    assert_eq!(char_digit('F'), Some(15));
    assert_eq!(char_digit('g'), None);
    assert_eq!(char_digit('/'), None);
    assert!(is_digit_char('1', 2));
    assert!(!is_digit_char('2', 2));
    assert!(is_digit_char('9', 10));
    assert!(!is_digit_char('a', 10));
    assert!(is_digit_char('f', 16));
}
