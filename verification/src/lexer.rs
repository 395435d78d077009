use vstd::prelude::*;

use crate::token::{Token, TokenView};

verus! {

/// An error raised while scanning source text. It is terminal for the
/// token stream: no resynchronisation is attempted.
#[derive(Debug, Clone, PartialEq, Eq, Structural)]
pub enum LexicalError {
    /// No token can start with this byte.
    UnexpectedCharacter(u8),
    /// The input ended inside a string literal.
    UnexpectedEndOfFile,
    /// A backslash escape named a character outside the escape table.
    UndefinedEscape(u8),
}

/// What one attempt at cutting a token yields: a token and the count of
/// bytes it consumed, or end of input, or a lexical error.
pub type LexResult = Result<Option<(Token, usize)>, LexicalError>;

pub const SEMICOLON: u8 = 59;
pub const EQUALS: u8 = 61;
pub const PLUS: u8 = 43;
pub const MINUS: u8 = 45;
pub const STAR: u8 = 42;
pub const SLASH: u8 = 47;
pub const LPAREN: u8 = 40;
pub const RPAREN: u8 = 41;
pub const QUOTE: u8 = 34;
pub const BACKSLASH: u8 = 92;
pub const DOT: u8 = 46;
pub const ZERO: u8 = 48;
pub const NINE: u8 = 57;
pub const LOWER_E: u8 = 101;
pub const UPPER_E: u8 = 69;
pub const LOWER_N: u8 = 110;
pub const LOWER_R: u8 = 114;
pub const LOWER_T: u8 = 116;
pub const LOWER_L: u8 = 108;
pub const LOWER_I: u8 = 105;
pub const NEWLINE: u8 = 10;
pub const RETURN: u8 = 13;
pub const TAB: u8 = 9;
pub const SPACE: u8 = 32;
pub const UNDERSCORE: u8 = 95;

/// Whitespace stripped between tokens: tab, newline, carriage return, space.
pub open spec fn is_ws(b: u8) -> bool {
    b == TAB || b == NEWLINE || b == RETURN || b == SPACE
}

pub open spec fn is_digit(b: u8) -> bool {
    ZERO <= b <= NINE
}

/// A byte that may start an identifier: a letter or an underscore.
pub open spec fn is_ident_start(b: u8) -> bool {
    (65 <= b <= 90) || (97 <= b <= 122) || b == UNDERSCORE
}

/// A byte that may continue an identifier.
pub open spec fn is_ident_byte(b: u8) -> bool {
    is_ident_start(b) || is_digit(b)
}

/// The token for a one-byte punctuation mark, if the byte is one.
pub open spec fn spec_punct(b: u8) -> Option<TokenView> {
    if b == SEMICOLON {
        Some(TokenView::Semicolon)
    } else if b == EQUALS {
        Some(TokenView::Equal)
    } else if b == PLUS {
        Some(TokenView::Plus)
    } else if b == MINUS {
        Some(TokenView::Minus)
    } else if b == STAR {
        Some(TokenView::Asterisk)
    } else if b == SLASH {
        Some(TokenView::Slash)
    } else if b == LPAREN {
        Some(TokenView::LParen)
    } else if b == RPAREN {
        Some(TokenView::RParen)
    } else {
        None
    }
}

/// The first position at or after `i` that does not hold whitespace.
pub open spec fn spec_ws_end(s: Seq<u8>, i: int) -> int
    decreases s.len() - i,
    when 0 <= i <= s.len()
{
    if i == s.len() || !is_ws(s[i]) {
        i
    } else {
        spec_ws_end(s, i + 1)
    }
}

/// The first position at or after `i` that does not hold a digit.
pub open spec fn spec_digits_end(s: Seq<u8>, i: int) -> int
    decreases s.len() - i,
    when 0 <= i <= s.len()
{
    if i == s.len() || !is_digit(s[i]) {
        i
    } else {
        spec_digits_end(s, i + 1)
    }
}

/// The first position at or after `i` that cannot continue an identifier.
pub open spec fn spec_ident_end(s: Seq<u8>, i: int) -> int
    decreases s.len() - i,
    when 0 <= i <= s.len()
{
    if i == s.len() || !is_ident_byte(s[i]) {
        i
    } else {
        spec_ident_end(s, i + 1)
    }
}

/// Where a numeral that starts at `i` ends: an integer part without
/// leading zeros, then an optional fraction, then an optional signed
/// exponent; a fraction or exponent is taken only when it is complete.
pub open spec fn spec_number_end(s: Seq<u8>, i: int) -> int {
    let int_end = if s[i] == ZERO {
        i + 1
    } else {
        spec_digits_end(s, i)
    };
    let frac_end = if int_end < s.len() && s[int_end] == DOT && int_end + 1 < s.len() && is_digit(
        s[int_end + 1],
    ) {
        spec_digits_end(s, int_end + 1)
    } else {
        int_end
    };
    if frac_end < s.len() && (s[frac_end] == LOWER_E || s[frac_end] == UPPER_E) {
        let sign_end = if frac_end + 1 < s.len() && (s[frac_end + 1] == PLUS || s[frac_end + 1]
            == MINUS) {
            frac_end + 2
        } else {
            frac_end + 1
        };
        if sign_end < s.len() && is_digit(s[sign_end]) {
            spec_digits_end(s, sign_end)
        } else {
            frac_end
        }
    } else {
        frac_end
    }
}

/// The decoded byte for an escape, if the escape is defined.
pub open spec fn spec_escape(b: u8) -> Option<u8> {
    if b == QUOTE {
        Some(QUOTE)
    } else if b == BACKSLASH {
        Some(BACKSLASH)
    } else if b == SLASH {
        Some(SLASH)
    } else if b == LOWER_N {
        Some(NEWLINE)
    } else if b == LOWER_R {
        Some(RETURN)
    } else if b == LOWER_T {
        Some(TAB)
    } else {
        None
    }
}

/// Scans the inside of a string literal from position `i`, the decoded
/// text so far being `acc`. Yields the full decoded text and the position
/// just past the closing quote, or the error that ends the scan.
pub open spec fn spec_string_tail(s: Seq<u8>, i: int, acc: Seq<u8>) -> Result<
    (Seq<u8>, int),
    LexicalError,
>
    decreases s.len() - i,
    when 0 <= i <= s.len()
{
    if i == s.len() {
        Err(LexicalError::UnexpectedEndOfFile)
    } else if s[i] == QUOTE {
        Ok((acc, i + 1))
    } else if s[i] == BACKSLASH {
        if i + 1 == s.len() {
            Err(LexicalError::UnexpectedEndOfFile)
        } else {
            match spec_escape(s[i + 1]) {
                Some(b) => spec_string_tail(s, i + 2, acc.push(b)),
                None => Err(LexicalError::UndefinedEscape(s[i + 1])),
            }
        }
    } else {
        spec_string_tail(s, i + 1, acc.push(s[i]))
    }
}

/// The keyword for an identifier's text, if it is a reserved word.
pub open spec fn spec_word_token(text: Seq<u8>) -> TokenView {
    if text == seq![LOWER_L, LOWER_E, LOWER_T] {
        TokenView::Let
    } else if text == seq![LOWER_I, LOWER_N] {
        TokenView::In
    } else {
        TokenView::Identifier(text)
    }
}

/// Cuts a single token at position `i`, with no whitespace stripped.
/// Yields the token and the position just past it, or end of input, or
/// a lexical error.
pub open spec fn spec_lex(s: Seq<u8>, i: int) -> Result<Option<(TokenView, int)>, LexicalError> {
    if i == s.len() {
        Ok(None)
    } else if spec_punct(s[i]) is Some {
        Ok(Some((spec_punct(s[i])->Some_0, i + 1)))
    } else if is_ident_start(s[i]) {
        let end = spec_ident_end(s, i + 1);
        Ok(Some((spec_word_token(s.subrange(i, end)), end)))
    } else if is_digit(s[i]) {
        let end = spec_number_end(s, i);
        Ok(Some((TokenView::Number(s.subrange(i, end)), end)))
    } else if s[i] == QUOTE {
        match spec_string_tail(s, i + 1, Seq::empty()) {
            Ok((text, end)) => Ok(Some((TokenView::String(text), end))),
            Err(e) => Err(e),
        }
    } else {
        Err(LexicalError::UnexpectedCharacter(s[i]))
    }
}

/// Like `spec_lex`, after first stripping any run of leading whitespace.
pub open spec fn spec_lex_strip(s: Seq<u8>, i: int) -> Result<
    Option<(TokenView, int)>,
    LexicalError,
> {
    spec_lex(s, spec_ws_end(s, i))
}

proof fn lemma_ws_bounds(s: Seq<u8>, i: int)
    requires
        0 <= i <= s.len(),
    ensures
        i <= spec_ws_end(s, i) <= s.len(),
    decreases s.len() - i,
{
    if i < s.len() && is_ws(s[i]) {
        lemma_ws_bounds(s, i + 1);
    }
}

proof fn lemma_digits_bounds(s: Seq<u8>, i: int)
    requires
        0 <= i <= s.len(),
    ensures
        i <= spec_digits_end(s, i) <= s.len(),
    decreases s.len() - i,
{
    if i < s.len() && is_digit(s[i]) {
        lemma_digits_bounds(s, i + 1);
    }
}

proof fn lemma_ident_bounds(s: Seq<u8>, i: int)
    requires
        0 <= i <= s.len(),
    ensures
        i <= spec_ident_end(s, i) <= s.len(),
    decreases s.len() - i,
{
    if i < s.len() && is_ident_byte(s[i]) {
        lemma_ident_bounds(s, i + 1);
    }
}

proof fn lemma_string_tail_bounds(s: Seq<u8>, i: int, acc: Seq<u8>)
    requires
        0 <= i <= s.len(),
    ensures
        match spec_string_tail(s, i, acc) {
            Ok(te) => i < te.1 <= s.len(),
            Err(e) => true,
        },
    decreases s.len() - i,
{
    if i < s.len() {
        if s[i] == BACKSLASH {
            if i + 1 < s.len() && spec_escape(s[i + 1]) is Some {
                lemma_string_tail_bounds(s, i + 2, acc.push(spec_escape(s[i + 1])->Some_0));
            }
        } else if s[i] != QUOTE {
            lemma_string_tail_bounds(s, i + 1, acc.push(s[i]));
        }
    }
}

proof fn lemma_number_bounds(s: Seq<u8>, i: int)
    requires
        0 <= i < s.len(),
        is_digit(s[i]),
    ensures
        i < spec_number_end(s, i) <= s.len(),
{
    if s[i] != ZERO {
        lemma_digits_bounds(s, i + 1);
        assert(spec_digits_end(s, i) == spec_digits_end(s, i + 1));
    }
    let int_end = if s[i] == ZERO {
        i + 1
    } else {
        spec_digits_end(s, i)
    };
    assert(i < int_end <= s.len());
    if int_end < s.len() && s[int_end] == DOT && int_end + 1 < s.len() && is_digit(s[int_end + 1]) {
        lemma_digits_bounds(s, int_end + 1);
    }
    let frac_end = if int_end < s.len() && s[int_end] == DOT && int_end + 1 < s.len() && is_digit(
        s[int_end + 1],
    ) {
        spec_digits_end(s, int_end + 1)
    } else {
        int_end
    };
    if frac_end < s.len() && (s[frac_end] == LOWER_E || s[frac_end] == UPPER_E) {
        let sign_end = if frac_end + 1 < s.len() && (s[frac_end + 1] == PLUS || s[frac_end + 1]
            == MINUS) {
            frac_end + 2
        } else {
            frac_end + 1
        };
        if sign_end < s.len() && is_digit(s[sign_end]) {
            lemma_digits_bounds(s, sign_end);
        }
    }
}

proof fn lemma_lex_bounds(s: Seq<u8>, j: int)
    requires
        0 <= j <= s.len(),
    ensures
        match spec_lex(s, j) {
            Ok(Some(te)) => j < te.1 <= s.len(),
            _ => true,
        },
{
    if j < s.len() {
        lemma_ident_bounds(s, j + 1);
        if is_digit(s[j]) {
            lemma_number_bounds(s, j);
        }
        lemma_string_tail_bounds(s, j + 1, Seq::empty());
    }
}

proof fn lemma_ws_shift(s: Seq<u8>, a: int, b: int, i: int)
    requires
        0 <= a <= i <= b <= s.len(),
        spec_ws_end(s, i) <= b,
    ensures
        spec_ws_end(s.subrange(a, b), i - a) == spec_ws_end(s, i) - a,
    decreases s.len() - i,
{
    lemma_ws_bounds(s, i);
    if i < b && is_ws(s[i]) {
        lemma_ws_shift(s, a, b, i + 1);
    }
}

proof fn lemma_digits_shift(s: Seq<u8>, a: int, b: int, i: int)
    requires
        0 <= a <= i <= b <= s.len(),
        spec_digits_end(s, i) <= b,
    ensures
        spec_digits_end(s.subrange(a, b), i - a) == spec_digits_end(s, i) - a,
    decreases s.len() - i,
{
    lemma_digits_bounds(s, i);
    if i < b && is_digit(s[i]) {
        lemma_digits_shift(s, a, b, i + 1);
    }
}

proof fn lemma_ident_shift(s: Seq<u8>, a: int, b: int, i: int)
    requires
        0 <= a <= i <= b <= s.len(),
        spec_ident_end(s, i) <= b,
    ensures
        spec_ident_end(s.subrange(a, b), i - a) == spec_ident_end(s, i) - a,
    decreases s.len() - i,
{
    lemma_ident_bounds(s, i);
    if i < b && is_ident_byte(s[i]) {
        lemma_ident_shift(s, a, b, i + 1);
    }
}

proof fn lemma_string_tail_shift(s: Seq<u8>, a: int, b: int, i: int, acc: Seq<u8>, txt: Seq<u8>, end: int)
    requires
        0 <= a <= i <= b <= s.len(),
        spec_string_tail(s, i, acc) == Ok::<_, LexicalError>((txt, end)),
        end <= b,
    ensures
        spec_string_tail(s.subrange(a, b), i - a, acc) == Ok::<_, LexicalError>((txt, end - a)),
    decreases s.len() - i,
{
    lemma_string_tail_bounds(s, i, acc);
    assert(i < end <= b);
    if s[i] == QUOTE {
    } else if s[i] == BACKSLASH {
        let c = s[i + 1];
        lemma_string_tail_bounds(s, i + 2, acc.push(spec_escape(c)->Some_0));
        lemma_string_tail_shift(s, a, b, i + 2, acc.push(spec_escape(c)->Some_0), txt, end);
    } else {
        lemma_string_tail_bounds(s, i + 1, acc.push(s[i]));
        lemma_string_tail_shift(s, a, b, i + 1, acc.push(s[i]), txt, end);
    }
}

proof fn lemma_number_shift(s: Seq<u8>, a: int, b: int, i: int)
    requires
        0 <= a <= i < b <= s.len(),
        is_digit(s[i]),
        spec_number_end(s, i) <= b,
    ensures
        spec_number_end(s.subrange(a, b), i - a) == spec_number_end(s, i) - a,
{
    let t = s.subrange(a, b);
    let end = spec_number_end(s, i);
    if s[i] != ZERO {
        lemma_digits_bounds(s, i + 1);
        assert(spec_digits_end(s, i) == spec_digits_end(s, i + 1));
    }
    let int_end = if s[i] == ZERO {
        i + 1
    } else {
        spec_digits_end(s, i)
    };
    assert(i < int_end <= s.len());
    let frac_taken = int_end < s.len() && s[int_end] == DOT && int_end + 1 < s.len() && is_digit(
        s[int_end + 1],
    );
    if frac_taken {
        lemma_digits_bounds(s, int_end + 1);
    }
    let frac_end = if frac_taken {
        spec_digits_end(s, int_end + 1)
    } else {
        int_end
    };
    assert(int_end <= frac_end <= s.len());
    let exp_cond = frac_end < s.len() && (s[frac_end] == LOWER_E || s[frac_end] == UPPER_E);
    let sign_end = if frac_end + 1 < s.len() && (s[frac_end + 1] == PLUS || s[frac_end + 1]
        == MINUS) {
        frac_end + 2
    } else {
        frac_end + 1
    };
    let exp_taken = exp_cond && sign_end < s.len() && is_digit(s[sign_end]);
    if exp_taken {
        lemma_digits_bounds(s, sign_end + 1);
        assert(spec_digits_end(s, sign_end) == spec_digits_end(s, sign_end + 1));
    }
    assert(frac_end <= end <= b);
    if s[i] != ZERO {
        lemma_digits_shift(s, a, b, i);
    }
    if frac_taken {
        assert(spec_digits_end(s, int_end + 1) == spec_digits_end(s, int_end + 2));
        lemma_digits_bounds(s, int_end + 2);
        assert(frac_end >= int_end + 2);
        lemma_digits_shift(s, a, b, int_end + 1);
    }
    if exp_taken {
        assert(sign_end < end <= b);
        lemma_digits_shift(s, a, b, sign_end);
    }
    let ti = i - a;
    assert(t[ti] == s[i]);
    let int_end_t = if t[ti] == ZERO {
        ti + 1
    } else {
        spec_digits_end(t, ti)
    };
    assert(int_end_t == int_end - a);
    let frac_taken_t = int_end_t < t.len() && t[int_end_t] == DOT && int_end_t + 1 < t.len()
        && is_digit(t[int_end_t + 1]);
    assert(frac_taken_t == frac_taken);
    let frac_end_t = if frac_taken_t {
        spec_digits_end(t, int_end_t + 1)
    } else {
        int_end_t
    };
    assert(frac_end_t == frac_end - a);
    if exp_taken {
        assert(spec_number_end(t, ti) == end - a);
    } else {
        assert(spec_number_end(t, ti) == frac_end_t);
    }
}

proof fn lemma_lex_shift(s: Seq<u8>, a: int, b: int, j: int, tv: TokenView, end: int)
    requires
        0 <= a <= j <= b <= s.len(),
        spec_lex(s, j) == Ok::<_, LexicalError>(Some((tv, end))),
        end <= b,
    ensures
        spec_lex(s.subrange(a, b), j - a) == Ok::<_, LexicalError>(Some((tv, end - a))),
{
    let t = s.subrange(a, b);
    lemma_lex_bounds(s, j);
    assert(j < end <= b);
    if spec_punct(s[j]) is Some {
    } else if is_ident_start(s[j]) {
        lemma_ident_bounds(s, j + 1);
        lemma_ident_shift(s, a, b, j + 1);
        assert(t.subrange(j - a, end - a) =~= s.subrange(j, end));
    } else if is_digit(s[j]) {
        lemma_number_shift(s, a, b, j);
        assert(t.subrange(j - a, end - a) =~= s.subrange(j, end));
    } else {
        lemma_string_tail_bounds(s, j + 1, Seq::empty());
        let te = spec_string_tail(s, j + 1, Seq::empty())->Ok_0;
        lemma_string_tail_shift(s, a, b, j + 1, Seq::empty(), te.0, te.1);
    }
}

/// Re-lexing a token's span gives the token back: where the stream cuts a
/// token with span `[i, end)`, running the same cut on exactly the bytes
/// of that span — leading whitespace included — yields the same token,
/// consuming the whole span.
pub proof fn lemma_relex_span(s: Seq<u8>, i: int, tv: TokenView, end: int)
    requires
        0 <= i <= s.len(),
        spec_lex_strip(s, i) == Ok::<_, LexicalError>(Some((tv, end))),
    ensures
        spec_lex_strip(s.subrange(i, end), 0) == Ok::<_, LexicalError>(Some((tv, end - i))),
{
    let w = spec_ws_end(s, i);
    lemma_ws_bounds(s, i);
    lemma_lex_bounds(s, w);
    assert(w < end <= s.len());
    lemma_ws_shift(s, i, end, i);
    lemma_lex_shift(s, i, end, w, tv, end);
}

fn ws_byte(b: u8) -> (r: bool)
    ensures
        r == is_ws(b),
{
    b == TAB || b == NEWLINE || b == RETURN || b == SPACE
}

fn digit_byte(b: u8) -> (r: bool)
    ensures
        r == is_digit(b),
{
    ZERO <= b && b <= NINE
}

fn ident_start_byte(b: u8) -> (r: bool)
    ensures
        r == is_ident_start(b),
{
    (65 <= b && b <= 90) || (97 <= b && b <= 122) || b == UNDERSCORE
}

fn ident_byte(b: u8) -> (r: bool)
    ensures
        r == is_ident_byte(b),
{
    ident_start_byte(b) || digit_byte(b)
}

fn ws_end(input: &[u8], i: usize) -> (r: usize)
    requires
        i <= input@.len(),
    ensures
        i <= r <= input@.len(),
        r as int == spec_ws_end(input@, i as int),
{
    let mut j = i;
    while j < input.len() && ws_byte(input[j])
        invariant
            i <= j <= input@.len(),
            spec_ws_end(input@, i as int) == spec_ws_end(input@, j as int),
        decreases input@.len() - j,
    {
        j = j + 1;
    }
    j
}

fn digits_end(input: &[u8], i: usize) -> (r: usize)
    requires
        i <= input@.len(),
    ensures
        i <= r <= input@.len(),
        r as int == spec_digits_end(input@, i as int),
        i < input@.len() && is_digit(input@[i as int]) ==> r > i,
{
    let mut j = i;
    while j < input.len() && digit_byte(input[j])
        invariant
            i <= j <= input@.len(),
            spec_digits_end(input@, i as int) == spec_digits_end(input@, j as int),
        decreases input@.len() - j,
    {
        j = j + 1;
    }
    j
}

fn ident_end(input: &[u8], i: usize) -> (r: usize)
    requires
        i <= input@.len(),
    ensures
        i <= r <= input@.len(),
        r as int == spec_ident_end(input@, i as int),
{
    let mut j = i;
    while j < input.len() && ident_byte(input[j])
        invariant
            i <= j <= input@.len(),
            spec_ident_end(input@, i as int) == spec_ident_end(input@, j as int),
        decreases input@.len() - j,
    {
        j = j + 1;
    }
    j
}

fn number_end(input: &[u8], i: usize) -> (r: usize)
    requires
        i < input@.len(),
        is_digit(input@[i as int]),
    ensures
        i < r <= input@.len(),
        r as int == spec_number_end(input@, i as int),
{
    let int_end = if input[i] == ZERO {
        i + 1
    } else {
        digits_end(input, i)
    };
    let frac_end = if int_end < input.len() && input[int_end] == DOT && int_end + 1 < input.len()
        && digit_byte(input[int_end + 1]) {
        digits_end(input, int_end + 1)
    } else {
        int_end
    };
    if frac_end < input.len() && (input[frac_end] == LOWER_E || input[frac_end] == UPPER_E) {
        let sign_end = if frac_end + 1 < input.len() && (input[frac_end + 1] == PLUS
            || input[frac_end + 1] == MINUS) {
            frac_end + 2
        } else {
            frac_end + 1
        };
        if sign_end < input.len() && digit_byte(input[sign_end]) {
            digits_end(input, sign_end)
        } else {
            frac_end
        }
    } else {
        frac_end
    }
}

fn escape_byte(b: u8) -> (r: Option<u8>)
    ensures
        r == spec_escape(b),
{
    if b == QUOTE {
        Some(QUOTE)
    } else if b == BACKSLASH {
        Some(BACKSLASH)
    } else if b == SLASH {
        Some(SLASH)
    } else if b == LOWER_N {
        Some(NEWLINE)
    } else if b == LOWER_R {
        Some(RETURN)
    } else if b == LOWER_T {
        Some(TAB)
    } else {
        None
    }
}

/// Scans the inside of a string literal, decoding escapes as it goes.
/// `start` is the position just after the opening quote.
fn string_tail(input: &[u8], start: usize) -> (r: Result<(Vec<u8>, usize), LexicalError>)
    requires
        start <= input@.len(),
    ensures
        match spec_string_tail(input@, start as int, Seq::<u8>::empty()) {
            Ok(te) => r matches Ok((buf, end)) && buf@ == te.0 && end as int == te.1 && start
                < end <= input@.len(),
            Err(e) => r matches Err(e2) && e2 == e,
        },
{
    let mut buf: Vec<u8> = Vec::new();
    let mut i = start;
    loop
        invariant
            start <= i <= input@.len(),
            spec_string_tail(input@, start as int, Seq::<u8>::empty()) == spec_string_tail(
                input@,
                i as int,
                buf@,
            ),
        decreases input@.len() - i,
    {
        if i == input.len() {
            return Err(LexicalError::UnexpectedEndOfFile);
        }
        let b = input[i];
        if b == QUOTE {
            return Ok((buf, i + 1));
        }
        if b == BACKSLASH {
            if i + 1 == input.len() {
                return Err(LexicalError::UnexpectedEndOfFile);
            }
            let c = input[i + 1];
            match escape_byte(c) {
                Some(d) => {
                    buf.push(d);
                    i = i + 2;
                },
                None => {
                    return Err(LexicalError::UndefinedEscape(c));
                },
            }
        } else {
            buf.push(b);
            i = i + 1;
        }
    }
}

/// The token an identifier's text stands for: a keyword where the text
/// is a reserved word, otherwise an identifier carrying the text.
fn word_token(name: Vec<u8>) -> (t: Token)
    ensures
        t@ == spec_word_token(name@),
{
    if name.len() == 3 && name[0] == LOWER_L && name[1] == LOWER_E && name[2] == LOWER_T {
        proof {
            assert(name@ =~= seq![LOWER_L, LOWER_E, LOWER_T]);
        }
        Token::Let
    } else if name.len() == 2 && name[0] == LOWER_I && name[1] == LOWER_N {
        proof {
            assert(name@ =~= seq![LOWER_I, LOWER_N]);
        }
        Token::In
    } else {
        proof {
            assert(name@ != seq![LOWER_L, LOWER_E, LOWER_T]);
            assert(name@ != seq![LOWER_I, LOWER_N]);
        }
        Token::Identifier(name)
    }
}

/// What the result of one cut must be for it to agree with the
/// mathematical lexer at position `i`: the same token, the same error,
/// or end of input, with the consumed count measured from `i`.
pub open spec fn lex_matches(r: LexResult, s: Seq<u8>, i: int) -> bool {
    match spec_lex(s, i) {
        Ok(opt) => match opt {
            Some(te) => r matches Ok(Some((t, n))) && t@ == te.0 && n as int == te.1 - i && n
                as int <= s.len() - i,
            None => r matches Ok(None),
        },
        Err(e) => r matches Err(e2) && e2 == e,
    }
}

/// Cuts a single token from `input` at position `pos` and reports how
/// many bytes it consumed, exactly as the mathematical lexer says.
fn lex(input: &[u8], pos: usize) -> (r: LexResult)
    requires
        pos <= input@.len(),
    ensures
        lex_matches(r, input@, pos as int),
{
    if pos == input.len() {
        return Ok(None);
    }
    let b = input[pos];
    if b == SEMICOLON {
        return Ok(Some((Token::Semicolon, 1)));
    }
    if b == EQUALS {
        return Ok(Some((Token::Equal, 1)));
    }
    if b == PLUS {
        return Ok(Some((Token::Plus, 1)));
    }
    if b == MINUS {
        return Ok(Some((Token::Minus, 1)));
    }
    if b == STAR {
        return Ok(Some((Token::Asterisk, 1)));
    }
    if b == SLASH {
        return Ok(Some((Token::Slash, 1)));
    }
    if b == LPAREN {
        return Ok(Some((Token::LParen, 1)));
    }
    if b == RPAREN {
        return Ok(Some((Token::RParen, 1)));
    }
    if ident_start_byte(b) {
        let end = ident_end(input, pos + 1);
        let text = crate::bytes::copy_range(input, pos, end);
        let t = word_token(text);
        return Ok(Some((t, end - pos)));
    }
    if digit_byte(b) {
        let end = number_end(input, pos);
        let text = crate::bytes::copy_range(input, pos, end);
        return Ok(Some((Token::Number(text), end - pos)));
    }
    if b == QUOTE {
        match string_tail(input, pos + 1) {
            Ok((buf, end)) => {
                return Ok(Some((Token::String(buf), end - pos)));
            },
            Err(e) => {
                return Err(e);
            },
        }
    }
    Err(LexicalError::UnexpectedCharacter(b))
}

/// What the result of one whitespace-stripping cut must be for it to
/// agree with the mathematical lexer: as `lex_matches`, with the
/// stripped whitespace counted into the consumed bytes.
pub open spec fn strip_matches(r: LexResult, s: Seq<u8>, i: int) -> bool {
    match spec_lex_strip(s, i) {
        Ok(opt) => match opt {
            Some(te) => r matches Ok(Some((t, n))) && t@ == te.0 && n as int == te.1 - i && n
                as int <= s.len() - i,
            None => r matches Ok(None),
        },
        Err(e) => r matches Err(e2) && e2 == e,
    }
}

/// Same as `lex` except that it first skips any leading whitespace,
/// counting it into the consumed bytes.
fn lex_strip(input: &[u8], pos: usize) -> (r: LexResult)
    requires
        pos <= input@.len(),
    ensures
        strip_matches(r, input@, pos as int),
{
    let total = input.len();
    let j = ws_end(input, pos);
    match lex(input, j) {
        Ok(Some((token, n))) => {
            proof {
                assert(n + (j - pos) <= total);
            }
            Ok(Some((token, n + (j - pos))))
        },
        r => r,
    }
}

/// Pulls tokens one at a time from a fixed input, reporting for each the
/// half-open byte span where it was found; the span's start lies before
/// any whitespace that was stripped. The stream ends at end of input.
/// A lexical error is terminal: it is surfaced exactly once, the position
/// then standing at the end of the input, so every further pull reports
/// end of input and no resynchronisation is attempted.
pub struct Lexer<'input> {
    pub input: &'input [u8],
    pub bytes_consumed: usize,
}

impl<'input> Lexer<'input> {
    /// A lexer never reads past its input.
    pub open spec fn wf(&self) -> bool {
        self.bytes_consumed <= self.input@.len()
    }

    pub fn new(input: &'input [u8]) -> (l: Self)
        ensures
            l.input@ == input@,
            l.bytes_consumed == 0,
            l.wf(),
    {
        Self { input, bytes_consumed: 0 }
    }

    /// Cuts the next token and reports it with its span, or reports end
    /// of input, or the error that ends the stream.
    pub fn next(&mut self) -> (r: Option<Result<(usize, Token, usize), LexicalError>>)
        requires
            old(self).wf(),
        ensures
            final(self).wf(),
            final(self).input@ == old(self).input@,
            match spec_lex_strip(old(self).input@, old(self).bytes_consumed as int) {
                Ok(opt) => match opt {
                    Some(te) => r matches Some(Ok((a, t, b))) && a == old(self).bytes_consumed
                        && t@ == te.0 && b as int == te.1 && final(self).bytes_consumed == b,
                    None => r is None && final(self).bytes_consumed == old(self).bytes_consumed,
                },
                Err(e) => r matches Some(Err(e2)) && e2 == e && final(self).bytes_consumed
                    == old(self).input@.len(),
            },
    {
        let total = self.input.len();
        match lex_strip(self.input, self.bytes_consumed) {
            Ok(Some((token, n))) => {
                let span_start = self.bytes_consumed;
                proof {
                    assert(self.bytes_consumed + n <= total);
                }
                let span_end = self.bytes_consumed + n;
                self.bytes_consumed = span_end;
                Some(Ok((span_start, token, span_end)))
            },
            Err(e) => {
                self.bytes_consumed = total;
                Some(Err(e))
            },
            Ok(None) => None,
        }
    }
}

/// At the end of the input the stream reports end of input — so once an
/// error has been surfaced and the position stands at the end, every
/// further pull yields nothing, and after one end-of-input answer every
/// later pull answers the same.
pub proof fn lemma_stream_ended(s: Seq<u8>)
    ensures
        spec_lex_strip(s, s.len() as int) == Ok::<_, LexicalError>(None::<(TokenView, int)>),
{
    assert(spec_ws_end(s, s.len() as int) == s.len() as int);
}

} // verus!
