//! The scanner: from expression text to a table of tokens.
//!
//! The text is read once, left to right.  Blanks separate tokens and are
//! dropped, every other character must start a token, and the table is closed
//! by one end-of-text token.  What the scanner produces for a text is given by
//! [`scan_from`]; [`ScanTableSt::scan`] computes exactly that.

use vstd::prelude::*;
use crate::text::to_chars;

verus! {

/// The kinds of token.  `Any` is never produced by the scanner: it is the
/// wildcard of [`ScanTableSt::accept`].
#[derive(Debug, Clone, Copy, PartialEq, Eq, Structural)]
pub enum ScanToken {
    IntLit,
    HexLit,
    BinLit,
    Plus,
    Minus,
    Mult,
    Div,
    ShiftRight,
    ShiftLeft,
    ArithShiftRight,
    BitAnd,
    BitOr,
    BitXor,
    BitNot,
    LParen,
    RParen,
    EOT,
    Any,
}

/// A token: its kind and the source text behind it.  A literal keeps its
/// whole text, prefix included, for the parser to decode.
#[derive(Debug)]
pub struct ScanTokenSt {
    pub id: ScanToken,
    pub value: String,
}

/// What a token is in specifications: its kind and its text as characters.
pub struct Token {
    pub id: ScanToken,
    pub text: Seq<char>,
}

impl View for ScanTokenSt {
    type V = Token;

    open spec fn view(&self) -> Token {
        Token { id: self.id, text: self.value@ }
    }
}

/// Why a text could not be scanned.
#[derive(Debug, Clone, Copy, PartialEq, Eq)]
pub enum ScanError {
    /// The character starts no token.  A `>` that is followed by neither `>`
    /// nor `-`, and a `<` that is not followed by `<`, are reported like this.
    InvalidChar(char),
}

/// The table of tokens with the parser's cursor into it.
pub struct ScanTableSt {
    /// The tokens, in source order.
    pub table: Vec<ScanTokenSt>,
    /// The number of tokens added since the table was made or last reset.
    pub len: usize,
    /// The index of the token that the parser looks at next.
    pub cur: usize,
}

/// The value of a character as a digit in bases up to 16; letters count in
/// both cases.
pub open spec fn digit_value(c: char) -> Option<nat> {
    if '0' <= c <= '9' {
        Some((c as nat - '0' as nat) as nat)
    } else if 'a' <= c <= 'f' {
        Some((c as nat - 'a' as nat + 10) as nat)
    } else if 'A' <= c <= 'F' {
        Some((c as nat - 'A' as nat + 10) as nat)
    } else {
        None
    }
}

/// Whether `c` is a digit of base `radix`.
pub open spec fn is_digit(c: char, radix: nat) -> bool {
    digit_value(c) matches Some(d) && d < radix
}

/// Whether `c` separates tokens: a space or a tab.
pub open spec fn is_blank(c: char) -> bool {
    c == ' ' || c == '\t'
}

/// The length of the longest run of base-`radix` digits in `s` that starts at
/// `from`.
pub open spec fn digit_run(s: Seq<char>, from: int, radix: nat) -> nat
    decreases s.len() - from,
{
    if 0 <= from < s.len() && is_digit(s[from], radix) {
        1 + digit_run(s, from + 1, radix)
    } else {
        0
    }
}

/// The kind of the operator that the single character `c` is, if any.
pub open spec fn single_operator(c: char) -> Option<ScanToken> {
    if c == '+' {
        Some(ScanToken::Plus)
    } else if c == '-' {
        Some(ScanToken::Minus)
    } else if c == '*' {
        Some(ScanToken::Mult)
    } else if c == '/' {
        Some(ScanToken::Div)
    } else if c == '&' {
        Some(ScanToken::BitAnd)
    } else if c == '|' {
        Some(ScanToken::BitOr)
    } else if c == '^' {
        Some(ScanToken::BitXor)
    } else if c == '~' {
        Some(ScanToken::BitNot)
    } else if c == '(' {
        Some(ScanToken::LParen)
    } else if c == ')' {
        Some(ScanToken::RParen)
    } else {
        None
    }
}

/// The kind of the operator that the two characters `c`, `next` are, if any:
/// `>>`, `>-` or `<<`.
pub open spec fn double_operator(c: char, next: char) -> Option<ScanToken> {
    if c == '>' && next == '>' {
        Some(ScanToken::ShiftRight)
    } else if c == '>' && next == '-' {
        Some(ScanToken::ArithShiftRight)
    } else if c == '<' && next == '<' {
        Some(ScanToken::ShiftLeft)
    } else {
        None
    }
}

/// The radix of the prefixed literal that the two characters `c`, `next`
/// open, if any: 16 for `0x` and `0X`, 2 for `0b` and `0B`.
pub open spec fn literal_prefix(c: char, next: char) -> Option<nat> {
    if c == '0' && (next == 'x' || next == 'X') {
        Some(16)
    } else if c == '0' && (next == 'b' || next == 'B') {
        Some(2)
    } else {
        None
    }
}

/// The token that starts at index `i` of `s`: its kind and how many
/// characters it takes, or `None` where no token starts.
///
/// A prefixed literal is its two prefix characters and the longest run of
/// digits of its base after them, which may be empty.  A decimal literal is
/// the longest run of decimal digits.
pub open spec fn token_at(s: Seq<char>, i: int) -> Option<(ScanToken, nat)>
    recommends
        0 <= i < s.len(),
{
    let c = s[i];
    if single_operator(c) is Some {
        Some((single_operator(c)->0, 1))
    } else if i + 1 < s.len() && double_operator(c, s[i + 1]) is Some {
        Some((double_operator(c, s[i + 1])->0, 2))
    } else if i + 1 < s.len() && literal_prefix(c, s[i + 1]) == Some(16nat) {
        Some((ScanToken::HexLit, 2 + digit_run(s, i + 2, 16)))
    } else if i + 1 < s.len() && literal_prefix(c, s[i + 1]) == Some(2nat) {
        Some((ScanToken::BinLit, 2 + digit_run(s, i + 2, 2)))
    } else if is_digit(c, 10) {
        Some((ScanToken::IntLit, digit_run(s, i, 10)))
    } else {
        None
    }
}

/// A run of digits ends within the text.
pub proof fn lemma_digit_run_bound(s: Seq<char>, from: int, radix: nat)
    requires
        0 <= from <= s.len(),
    ensures
        from + digit_run(s, from, radix) <= s.len(),
    decreases s.len() - from,
{
    if from < s.len() && is_digit(s[from], radix) {
        lemma_digit_run_bound(s, from + 1, radix);
    }
}

/// A token takes at least one character and ends within the text.
pub proof fn lemma_token_at_bounds(s: Seq<char>, i: int)
    requires
        0 <= i < s.len(),
        token_at(s, i) is Some,
    ensures
        token_at(s, i) matches Some((_, len)) && 1 <= len && i + len <= s.len(),
{
    if i + 1 < s.len() {
        lemma_digit_run_bound(s, i + 2, 16);
        lemma_digit_run_bound(s, i + 2, 2);
    }
    lemma_digit_run_bound(s, i + 1, 10);
}

/// The text of the token that closes every scanned table.
pub open spec fn end_of_text() -> Token {
    Token { id: ScanToken::EOT, text: seq!['\0'] }
}

/// What scanning produces: the tokens in source order and, where scanning
/// stopped early, the reason.  Without an error the last token is the
/// end-of-text token; with one, the tokens are those before the offending
/// character.
pub struct Scanned {
    pub tokens: Seq<Token>,
    pub error: Option<ScanError>,
}

/// Scanning `s` from index `i` on.
pub open spec fn scan_from(s: Seq<char>, i: int) -> Scanned
    decreases s.len() - i,
{
    if i < 0 || i >= s.len() {
        Scanned { tokens: seq![end_of_text()], error: None }
    } else if is_blank(s[i]) {
        scan_from(s, i + 1)
    } else {
        match token_at(s, i) {
            Some((id, len)) => {
                proof {
                    lemma_token_at_bounds(s, i);
                }
                let rest = scan_from(s, i + len);
                Scanned {
                    tokens: seq![Token { id, text: s.subrange(i, i + len) }] + rest.tokens,
                    error: rest.error,
                }
            },
            None => Scanned { tokens: Seq::empty(), error: Some(ScanError::InvalidChar(s[i])) },
        }
    }
}

/// The tokens of a whole text, or the error that stops the scanner.
pub open spec fn scan_text(s: Seq<char>) -> Result<Seq<Token>, ScanError> {
    match scan_from(s, 0).error {
        Some(e) => Err(e),
        None => Ok(scan_from(s, 0).tokens),
    }
}

/// The value of `c` as a digit in bases up to 16.
pub fn char_digit(c: char) -> (digit: Option<u32>)
    ensures
        match digit {
            Some(d) => digit_value(c) == Some(d as nat) && d < 16,
            None => digit_value(c) is None,
        },
{
    if '0' <= c && c <= '9' {
        Some(c as u32 - '0' as u32)
    } else if 'a' <= c && c <= 'f' {
        Some(c as u32 - 'a' as u32 + 10)
    } else if 'A' <= c && c <= 'F' {
        Some(c as u32 - 'A' as u32 + 10)
    } else {
        None
    }
}

/// Whether `c` is a digit of base `radix`.
pub fn is_digit_char(c: char, radix: u32) -> (yes: bool)
    ensures
        yes == is_digit(c, radix as nat),
{
    match char_digit(c) {
        Some(d) => d < radix,
        None => false,
    }
}

/// Appends to `text` the longest run of base-`radix` digits of `chars` that
/// starts at `from`, and returns the index after the run.
fn take_digit_run(text: &mut String, chars: &Vec<char>, from: usize, radix: u32) -> (end: usize)
    requires
        from <= chars.len(),
    ensures
        end == from + digit_run(chars@, from as int, radix as nat),
        end <= chars.len(),
        final(text)@ == old(text)@ + chars@.subrange(from as int, end as int),
{
    let mut pos: usize = from;
    proof {
        lemma_digit_run_bound(chars@, from as int, radix as nat);
    }
    while pos < chars.len() && is_digit_char(chars[pos], radix)
        invariant
            from <= pos <= chars.len(),
            pos + digit_run(chars@, pos as int, radix as nat) == from + digit_run(
                chars@,
                from as int,
                radix as nat,
            ),
            text@ == old(text)@ + chars@.subrange(from as int, pos as int),
        decreases chars.len() - pos,
    {
        text.push(chars[pos]);
        pos = pos + 1;
        assert(text@ =~= old(text)@ + chars@.subrange(from as int, pos as int));
    }
    pos
}

impl ScanTableSt {
    /// The counter of added tokens does not exceed the number of stored ones.
    pub open spec fn wf(&self) -> bool {
        self.len <= self.table@.len()
    }

    /// The stored tokens as kinds and texts.
    pub open spec fn tokens(&self) -> Seq<Token> {
        self.table@.map_values(|t: ScanTokenSt| t@)
    }

    /// An empty table with the cursor at its start.
    pub fn new() -> (st: Self)
        ensures
            st.wf(),
            st.tokens() == Seq::<Token>::empty(),
            st.len == 0,
            st.cur == 0,
    {
        let st = ScanTableSt { table: Vec::new(), len: 0, cur: 0 };
        assert(st.tokens() =~= Seq::<Token>::empty());
        st
    }

    /// Resets the counter of added tokens and the cursor.  The stored tokens
    /// stay where they are.
    pub fn init(&mut self)
        ensures
            final(self).wf(),
            final(self).len == 0,
            final(self).cur == 0,
            final(self).table == old(self).table,
    {
        self.len = 0;
        self.cur = 0;
    }

    /// Adds a token of kind `Any` with empty text at the end of the table and
    /// hands it out to be filled in.
    pub fn new_token(&mut self) -> (token: &mut ScanTokenSt)
        requires
            old(self).wf(),
        ensures
            final(self).wf(),
            token.id == ScanToken::Any,
            token.value@ == Seq::<char>::empty(),
            final(self).table@ == old(self).table@.push(*final(token)),
            final(self).len == old(self).len + 1,
            final(self).cur == old(self).cur,
    {
        let token = ScanTokenSt { id: ScanToken::Any, value: String::new() };
        self.table.push(token);
        let last: usize = self.table.len() - 1;
        self.len = self.len + 1;
        &mut self.table[last]
    }

    /// Adds a token of kind `id` whose text is `text`.
    fn add_text_token(&mut self, id: ScanToken, text: String)
        requires
            old(self).wf(),
        ensures
            final(self).wf(),
            final(self).tokens() == old(self).tokens().push(Token { id, text: text@ }),
            final(self).len == old(self).len + 1,
            final(self).cur == old(self).cur,
    {
        let token = self.new_token();
        token.id = id;
        token.value = text;
        assert(self.tokens() =~= old(self).tokens().push(Token { id, text: text@ }));
    }

    /// Adds a token of kind `id` whose text is the single character `value`.
    fn add_token(&mut self, id: ScanToken, value: char)
        requires
            old(self).wf(),
        ensures
            final(self).wf(),
            final(self).tokens() == old(self).tokens().push(Token { id, text: seq![value] }),
            final(self).len == old(self).len + 1,
            final(self).cur == old(self).cur,
    {
        let token = self.new_token();
        token.id = id;
        token.value.push(value);
        assert(self.tokens() =~= old(self).tokens().push(Token { id, text: seq![value] }));
    }

    /// Adds the decimal literal that starts at `start`, a digit, and returns
    /// the index after it.
    fn scan_intlit(&mut self, chars: &Vec<char>, start: usize) -> (end: usize)
        requires
            old(self).wf(),
            start < chars.len(),
            is_digit(chars[start as int], 10),
        ensures
            final(self).wf(),
            start < end <= chars.len(),
            end == start + digit_run(chars@, start as int, 10),
            final(self).tokens() == old(self).tokens().push(
                Token { id: ScanToken::IntLit, text: chars@.subrange(start as int, end as int) },
            ),
            final(self).len == old(self).len + 1,
            final(self).cur == old(self).cur,
    {
        let mut text = String::new();
        let end = take_digit_run(&mut text, chars, start, 10);
        assert(text@ =~= chars@.subrange(start as int, end as int));
        self.add_text_token(ScanToken::IntLit, text);
        end
    }

    /// Adds the hexadecimal literal whose prefix `0x` or `0X` starts at
    /// `start`, and returns the index after it.
    fn scan_hexlit(&mut self, chars: &Vec<char>, start: usize) -> (end: usize)
        requires
            old(self).wf(),
            start + 1 < chars.len(),
        ensures
            final(self).wf(),
            start + 2 <= end <= chars.len(),
            end == start + 2 + digit_run(chars@, start + 2, 16),
            final(self).tokens() == old(self).tokens().push(
                Token { id: ScanToken::HexLit, text: chars@.subrange(start as int, end as int) },
            ),
            final(self).len == old(self).len + 1,
            final(self).cur == old(self).cur,
    {
        let mut text = String::new();
        text.push(chars[start]);
        text.push(chars[start + 1]);
        let end = take_digit_run(&mut text, chars, start + 2, 16);
        assert(text@ =~= chars@.subrange(start as int, end as int));
        self.add_text_token(ScanToken::HexLit, text);
        end
    }

    /// Adds the binary literal whose prefix `0b` or `0B` starts at `start`,
    /// and returns the index after it.
    fn scan_binlit(&mut self, chars: &Vec<char>, start: usize) -> (end: usize)
        requires
            old(self).wf(),
            start + 1 < chars.len(),
        ensures
            final(self).wf(),
            start + 2 <= end <= chars.len(),
            end == start + 2 + digit_run(chars@, start + 2, 2),
            final(self).tokens() == old(self).tokens().push(
                Token { id: ScanToken::BinLit, text: chars@.subrange(start as int, end as int) },
            ),
            final(self).len == old(self).len + 1,
            final(self).cur == old(self).cur,
    {
        let mut text = String::new();
        text.push(chars[start]);
        text.push(chars[start + 1]);
        let end = take_digit_run(&mut text, chars, start + 2, 2);
        assert(text@ =~= chars@.subrange(start as int, end as int));
        self.add_text_token(ScanToken::BinLit, text);
        end
    }

    /// Scans `input` and adds its tokens at the end of the table, closed by
    /// one end-of-text token.
    ///
    /// Scanning stops at the first character that starts no token: the
    /// tokens before it have been added, and the character is reported.
    pub fn scan(&mut self, input: &str) -> (result: Result<(), ScanError>)
        requires
            old(self).wf(),
        ensures
            final(self).wf(),
            final(self).cur == old(self).cur,
            final(self).tokens() == old(self).tokens() + scan_from(input@, 0).tokens,
            final(self).len == old(self).len + scan_from(input@, 0).tokens.len(),
            result == match scan_from(input@, 0).error {
                Some(e) => Err::<(), ScanError>(e),
                None => Ok::<(), ScanError>(()),
            },
    {
        let chars = to_chars(input);
        let ghost whole = scan_from(chars@, 0);
        let mut pos: usize = 0;
        while pos < chars.len()
            invariant
                pos <= chars.len(),
                chars@ == input@,
                self.wf(),
                self.cur == old(self).cur,
                whole == scan_from(chars@, 0),
                whole.tokens == self.tokens().skip(old(self).tokens().len() as int) + scan_from(
                    chars@,
                    pos as int,
                ).tokens,
                whole.error == scan_from(chars@, pos as int).error,
                self.tokens().take(old(self).tokens().len() as int) == old(self).tokens(),
                old(self).tokens().len() <= self.tokens().len(),
                self.len - old(self).len == self.tokens().len() - old(self).tokens().len(),
            decreases chars.len() - pos,
        {
            let c = chars[pos];
            let ghost before = self.tokens();
            let ghost start = pos as int;
            if c == ' ' || c == '\t' {
                pos = pos + 1;
            } else {
                let single = single_operator_of(c);
                let double = if pos + 1 < chars.len() {
                    double_operator_of(c, chars[pos + 1])
                } else {
                    None
                };
                proof {
                    if token_at(chars@, start) is Some {
                        lemma_token_at_bounds(chars@, start);
                    }
                }
                if let Some(id) = single {
                    self.add_token(id, c);
                    pos = pos + 1;
                    assert(chars@.subrange(start, start + 1) =~= seq![c]);
                } else if let Some(id) = double {
                    let mut text = String::new();
                    text.push(c);
                    text.push(chars[pos + 1]);
                    assert(text@ =~= chars@.subrange(start, start + 2));
                    self.add_text_token(id, text);
                    pos = pos + 2;
                } else if c == '0' && pos + 1 < chars.len() && (chars[pos + 1] == 'x' || chars[pos
                    + 1] == 'X') {
                    pos = self.scan_hexlit(&chars, pos);
                } else if c == '0' && pos + 1 < chars.len() && (chars[pos + 1] == 'b' || chars[pos
                    + 1] == 'B') {
                    pos = self.scan_binlit(&chars, pos);
                } else if is_digit_char(c, 10) {
                    pos = self.scan_intlit(&chars, pos);
                } else {
                    assert(self.tokens() =~= old(self).tokens() + whole.tokens);
                    return Err(ScanError::InvalidChar(c));
                }
                assert(token_at(chars@, start) matches Some((id, len)) && pos == start + len
                    && self.tokens() == before.push(
                    Token { id, text: chars@.subrange(start, start + len) },
                ));
                assert(self.tokens().skip(old(self).tokens().len() as int) + scan_from(
                    chars@,
                    pos as int,
                ).tokens =~= before.skip(old(self).tokens().len() as int) + scan_from(
                    chars@,
                    start,
                ).tokens);
                assert(self.tokens().take(old(self).tokens().len() as int) =~= before.take(
                    old(self).tokens().len() as int,
                ));
            }
        }
        let ghost before = self.tokens();
        self.add_token(ScanToken::EOT, '\0');
        assert(self.tokens() =~= old(self).tokens() + whole.tokens) by {
            assert(before =~= before.take(old(self).tokens().len() as int) + before.skip(
                old(self).tokens().len() as int,
            ));
        }
        Ok(())
    }

    /// The token `offset` places after the cursor, if the table has one there.
    pub fn get(&self, offset: usize) -> (token: Option<&ScanTokenSt>)
        ensures
            token matches Some(t) ==> self.cur + offset < self.table@.len() <= usize::MAX && *t
                == self.table@[self.cur + offset],
            token is None <==> self.cur + offset >= self.table@.len(),
    {
        if offset < self.table.len() && self.cur < self.table.len() - offset {
            Some(&self.table[self.cur + offset])
        } else {
            None
        }
    }

    /// The token `back` places before the cursor, if the table has one there.
    pub fn get_last(&self, back: usize) -> (token: Option<&ScanTokenSt>)
        ensures
            token matches Some(t) ==> 0 <= self.cur - back < self.table@.len() && *t
                == self.table@[self.cur - back],
            token is None <==> !(0 <= self.cur - back < self.table@.len()),
    {
        if back <= self.cur && self.cur - back < self.table.len() {
            Some(&self.table[self.cur - back])
        } else {
            None
        }
    }

    /// Whether a request for `tk_expected` matches at the cursor: `Any`
    /// matches always, any other kind matches the token under the cursor.
    pub open spec fn accepts(&self, tk_expected: ScanToken) -> bool {
        tk_expected == ScanToken::Any || (self.cur < self.table@.len()
            && self.table@[self.cur as int].id == tk_expected)
    }

    /// Moves the cursor one token on if `tk_expected` matches there, and says
    /// whether it did.  On a mismatch nothing changes.
    pub fn accept(&mut self, tk_expected: ScanToken) -> (accepted: bool)
        requires
            tk_expected == ScanToken::Any ==> old(self).cur < usize::MAX,
        ensures
            accepted == old(self).accepts(tk_expected),
            final(self).cur == if accepted { old(self).cur + 1 } else { old(self).cur as int },
            final(self).table == old(self).table,
            final(self).len == old(self).len,
    {
        if tk_expected == ScanToken::Any {
            self.cur = self.cur + 1;
            return true;
        }
        if self.cur < self.table.len() {
            if self.table[self.cur].id == tk_expected {
                self.cur = self.cur + 1;
                return true;
            }
        }
        false
    }
}

/// The kind of the operator that the single character `c` is, if any.
fn single_operator_of(c: char) -> (id: Option<ScanToken>)
    ensures
        id == single_operator(c),
{
    if c == '+' {
        Some(ScanToken::Plus)
    } else if c == '-' {
        Some(ScanToken::Minus)
    } else if c == '*' {
        Some(ScanToken::Mult)
    } else if c == '/' {
        Some(ScanToken::Div)
    } else if c == '&' {
        Some(ScanToken::BitAnd)
    } else if c == '|' {
        Some(ScanToken::BitOr)
    } else if c == '^' {
        Some(ScanToken::BitXor)
    } else if c == '~' {
        Some(ScanToken::BitNot)
    } else if c == '(' {
        Some(ScanToken::LParen)
    } else if c == ')' {
        Some(ScanToken::RParen)
    } else {
        None
    }
}

/// The kind of the operator that the two characters `c`, `next` are, if any.
fn double_operator_of(c: char, next: char) -> (id: Option<ScanToken>)
    ensures
        id == double_operator(c, next),
{
    if c == '>' && next == '>' {
        Some(ScanToken::ShiftRight)
    } else if c == '>' && next == '-' {
        Some(ScanToken::ArithShiftRight)
    } else if c == '<' && next == '<' {
        Some(ScanToken::ShiftLeft)
    } else {
        None
    }
}

} // verus!
