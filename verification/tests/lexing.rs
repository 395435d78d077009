use minilang::lexer::{Lexer, LexicalError};
use minilang::token::Token;

fn lex_all(input: &[u8]) -> Vec<Result<(usize, Token, usize), LexicalError>> {
    let mut lexer = Lexer::new(input);
    let mut out = Vec::new();
    loop {
        match lexer.next() {
            Some(item) => {
                let stop = item.is_err();
                out.push(item);
                if stop {
                    return out;
                }
            },
            None => return out,
        }
    }
}

fn tokens_of(input: &[u8]) -> Vec<Token> {
    lex_all(input)
        .into_iter()
        .map(|item| item.expect("unexpected lexical error").1)
        .collect()
}

#[test]
fn lex_punctuation() {
    assert_eq!(
        tokens_of(b";=+-*/()"),
        vec![
            Token::Semicolon,
            Token::Equal,
            Token::Plus,
            Token::Minus,
            Token::Asterisk,
            Token::Slash,
            Token::LParen,
            Token::RParen,
        ]
    );
}

#[test]
fn lex_keywords_and_identifiers() {
    assert_eq!(
        tokens_of(b"let in foo _bar x1 letx"),
        vec![
            Token::Let,
            Token::In,
            Token::Identifier(b"foo".to_vec()),
            Token::Identifier(b"_bar".to_vec()),
            Token::Identifier(b"x1".to_vec()),
            Token::Identifier(b"letx".to_vec()),
        ]
    );
}

#[test]
fn lex_numbers_carry_their_text() {
    assert_eq!(
        tokens_of(b"0 1 10 3.14 1e10 1E10 0.5 12e+3 9e-2"),
        vec![
            Token::Number(b"0".to_vec()),
            Token::Number(b"1".to_vec()),
            Token::Number(b"10".to_vec()),
            Token::Number(b"3.14".to_vec()),
            Token::Number(b"1e10".to_vec()),
            Token::Number(b"1E10".to_vec()),
            Token::Number(b"0.5".to_vec()),
            Token::Number(b"12e+3".to_vec()),
            Token::Number(b"9e-2".to_vec()),
        ]
    );
}

#[test]
fn lex_numbers_no_leading_zeros() {
    // "007" is three numerals: the literal 0 twice, then 7.
    assert_eq!(
        tokens_of(b"0123"),
        vec![Token::Number(b"0".to_vec()), Token::Number(b"123".to_vec())]
    );
}

#[test]
fn lex_incomplete_fraction_stops_before_the_dot() {
    // The dot is taken only with a digit after it; here the numeral is
    // just "1" and the dot itself then fails to start a token.
    let items = lex_all(b"1.x");
    assert_eq!(items[0], Ok((0, Token::Number(b"1".to_vec()), 1)));
    assert_eq!(items[1], Err(LexicalError::UnexpectedCharacter(b'.')));
}

#[test]
fn lex_incomplete_exponent_backs_off() {
    // An exponent without digits is not part of the numeral.
    assert_eq!(
        tokens_of(b"12e"),
        vec![Token::Number(b"12".to_vec()), Token::Identifier(b"e".to_vec())]
    );
    let items = lex_all(b"12e+");
    assert_eq!(items[0], Ok((0, Token::Number(b"12".to_vec()), 2)));
    assert_eq!(items[1], Ok((2, Token::Identifier(b"e".to_vec()), 3)));
    assert_eq!(items[2], Ok((3, Token::Plus, 4)));
}

#[test]
fn lex_string_roundtrip() {
    // Source text: "a\tb\"c" — the payload holds a tab and a quote.
    let tokens = tokens_of(b"\"a\\tb\\\"c\"");
    assert_eq!(tokens, vec![Token::String(b"a\tb\"c".to_vec())]);
}

#[test]
fn lex_string_all_escapes() {
    let tokens = tokens_of(b"\"\\\"\\\\\\/\\n\\r\\t\"");
    assert_eq!(tokens, vec![Token::String(b"\"\\/\n\r\t".to_vec())]);
}

#[test]
fn lex_spans_cover_leading_whitespace() {
    let input = b"  let  foo";
    let items = lex_all(input);
    assert_eq!(items.len(), 2);
    assert_eq!(items[0], Ok((0, Token::Let, 5)));
    assert_eq!(items[1], Ok((5, Token::Identifier(b"foo".to_vec()), 10)));
}

#[test]
fn relexing_a_span_gives_the_same_token() {
    let input: &[u8] = b"  let foo = 12e+3 ; \"a\\tb\"";
    let items = lex_all(input);
    for item in &items {
        let (start, token, end) = item.as_ref().expect("clean input").clone();
        let slice = &input[start..end];
        let again = lex_all(slice);
        assert_eq!(again.len(), 1);
        assert_eq!(again[0], Ok((0, token, end - start)));
    }
}

#[test]
fn lex_unterminated_string_is_unexpected_eof() {
    let items = lex_all(b"\"abc");
    assert_eq!(items.last(), Some(&Err(LexicalError::UnexpectedEndOfFile)));
}

#[test]
fn lex_trailing_backslash_is_unexpected_eof() {
    let items = lex_all(b"\"abc\\");
    assert_eq!(items.last(), Some(&Err(LexicalError::UnexpectedEndOfFile)));
}

#[test]
fn lex_undefined_escape_names_the_character() {
    let items = lex_all(b"\"a\\qb\"");
    assert_eq!(items.last(), Some(&Err(LexicalError::UndefinedEscape(b'q'))));
}

#[test]
fn lex_unexpected_character() {
    let items = lex_all(b"foo # bar");
    assert_eq!(items.last(), Some(&Err(LexicalError::UnexpectedCharacter(b'#'))));
}

#[test]
fn lex_error_is_surfaced_once_then_the_stream_ends() {
    let mut lexer = Lexer::new(b"# foo");
    assert_eq!(lexer.next(), Some(Err(LexicalError::UnexpectedCharacter(b'#'))));
    assert_eq!(lexer.next(), None);
    assert_eq!(lexer.next(), None);
}

#[test]
fn lex_whitespace_only_is_end_of_input() {
    let mut lexer = Lexer::new(b" \t\r\n ");
    assert_eq!(lexer.next(), None);
}

#[test]
fn number_payloads_parse_to_the_expected_doubles() {
    let expected: &[(&[u8], f64)] = &[
        (b"0", 0.0),
        (b"1", 1.0),
        (b"10", 10.0),
        (b"3.14", 3.14),
        (b"1e10", 10000000000.0),
        (b"1E10", 10000000000.0),
    ];
    for (text, value) in expected {
        let tokens = tokens_of(text);
        assert_eq!(tokens, vec![Token::Number(text.to_vec())]);
        let parsed: f64 = String::from_utf8(text.to_vec()).unwrap().parse().unwrap();
        assert_eq!(parsed, *value);
    }
}
