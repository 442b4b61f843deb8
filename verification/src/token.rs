//! Token types and their mathematical models.
//!
//! `Token` is the classified lexical unit; `TokenSource` pairs a token
//! with its `[start, end)` offsets into the input. Contracts speak of
//! the ghost models `TokenView` and `SpanView`, in which an integer
//! token is its unbounded value and every text payload is a `Seq<char>`.

use vstd::prelude::*;
use crate::bignum::BigNum;

verus! {

/// A classified lexical unit.
///
/// Text-carrying variants keep the exact matched substring: a string
/// literal retains its surrounding double quotes with no escape
/// processing, and a whitespace token retains the exact run consumed,
/// so that the token sequence can reconstruct the input. A float token
/// keeps the exact literal text: the verified core states nothing
/// about floating-point values, and standard decimal-to-binary
/// conversion of the literal is a one-line step for any consumer.
#[derive(Debug)]
pub enum Token {
    Int(BigNum),
    Float(String),
    Str(String),
    OpenParen,
    CloseParen,
    OpenBrace,
    CloseBrace,
    OpenBracket,
    CloseBracket,
    Whitespace(String),
    Identifier(String),
    Keyword(String),
    Operator(String),
}

/// The ghost model of a token.
pub enum TokenView {
    Int { v: int },
    Float { text: Seq<char> },
    Str { text: Seq<char> },
    OpenParen,
    CloseParen,
    OpenBrace,
    CloseBrace,
    OpenBracket,
    CloseBracket,
    Whitespace { text: Seq<char> },
    Identifier { text: Seq<char> },
    Keyword { text: Seq<char> },
    Operator { text: Seq<char> },
}

impl View for Token {
    type V = TokenView;

    open spec fn view(&self) -> TokenView {
        match self {
            Token::Int(b) => TokenView::Int { v: b.value() },
            Token::Float(s) => TokenView::Float { text: s@ },
            Token::Str(s) => TokenView::Str { text: s@ },
            Token::OpenParen => TokenView::OpenParen,
            Token::CloseParen => TokenView::CloseParen,
            Token::OpenBrace => TokenView::OpenBrace,
            Token::CloseBrace => TokenView::CloseBrace,
            Token::OpenBracket => TokenView::OpenBracket,
            Token::CloseBracket => TokenView::CloseBracket,
            Token::Whitespace(s) => TokenView::Whitespace { text: s@ },
            Token::Identifier(s) => TokenView::Identifier { text: s@ },
            Token::Keyword(s) => TokenView::Keyword { text: s@ },
            Token::Operator(s) => TokenView::Operator { text: s@ },
        }
    }
}

/// A token together with its `[start, end)` offsets into the input,
/// counted in characters from the start of the text.
#[derive(Debug)]
pub struct TokenSource {
    pub token: Token,
    pub start: usize,
    pub end: usize,
}

/// The ghost model of a positioned token.
pub struct SpanView {
    pub token: TokenView,
    pub start: int,
    pub end: int,
}

impl View for TokenSource {
    type V = SpanView;

    open spec fn view(&self) -> SpanView {
        SpanView { token: self.token@, start: self.start as int, end: self.end as int }
    }
}

/// Tokenization failure: some position before the end of the input is
/// matched by no rule.
#[derive(Debug, Clone, Copy, PartialEq, Eq, Structural)]
pub enum LexError {
    UnrecognizedInput { position: usize },
}

} // verus!
