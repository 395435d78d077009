use vstd::prelude::*;

verus! {

/// A lexical unit of the language. Tokens carry no position; the stream
/// around the single-token cutter reports a byte span separately.
///
/// A number token carries the exact source text of the numeral; turning
/// that text into a machine number is its consumer's business, since the
/// verified core works on plain bytes only. String and identifier tokens
/// carry their payload as bytes: for a string token the decoded,
/// escape-free text, for an identifier the name as written.
#[derive(Debug, Clone, PartialEq, Eq)]
pub enum Token {
    Semicolon,
    Comma,
    Equal,
    EqEq,
    Plus,
    Minus,
    Asterisk,
    Slash,
    LParen,
    RParen,
    If,
    Then,
    Else,
    Def,
    Let,
    In,
    Number(Vec<u8>),
    String(Vec<u8>),
    Identifier(Vec<u8>),
}

/// The mathematical shape of a token: payloads as byte sequences.
pub enum TokenView {
    Semicolon,
    Comma,
    Equal,
    EqEq,
    Plus,
    Minus,
    Asterisk,
    Slash,
    LParen,
    RParen,
    If,
    Then,
    Else,
    Def,
    Let,
    In,
    Number(Seq<u8>),
    String(Seq<u8>),
    Identifier(Seq<u8>),
}

impl View for Token {
    type V = TokenView;

    open spec fn view(&self) -> TokenView {
        match self {
            Token::Semicolon => TokenView::Semicolon,
            Token::Comma => TokenView::Comma,
            Token::Equal => TokenView::Equal,
            Token::EqEq => TokenView::EqEq,
            Token::Plus => TokenView::Plus,
            Token::Minus => TokenView::Minus,
            Token::Asterisk => TokenView::Asterisk,
            Token::Slash => TokenView::Slash,
            Token::LParen => TokenView::LParen,
            Token::RParen => TokenView::RParen,
            Token::If => TokenView::If,
            Token::Then => TokenView::Then,
            Token::Else => TokenView::Else,
            Token::Def => TokenView::Def,
            Token::Let => TokenView::Let,
            Token::In => TokenView::In,
            Token::Number(t) => TokenView::Number(t@),
            Token::String(t) => TokenView::String(t@),
            Token::Identifier(t) => TokenView::Identifier(t@),
        }
    }
}

} // verus!
