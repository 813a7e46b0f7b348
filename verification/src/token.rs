//! Tokens: the lexical units that the scanner produces and the parser consumes.

use crate::text::same_text;
use vstd::prelude::*;
use vstd::std_specs::cmp::PartialEqSpecImpl;

verus! {

/// What a token is. `Ident` carries the identifier's text and `Number` the
/// literal's text, exactly as written in the source.
#[derive(Clone, Copy, Debug)]
pub enum TokenKind<'a> {
    LParen,
    RParen,
    LBrace,
    RBrace,
    Comma,
    Minus,
    Plus,
    Semicolon,
    Slash,
    Star,
    Dollar,
    PlusEqual,
    MinusEqual,
    MultiplyEqual,
    DivideEqual,
    Bang,
    BangEqual,
    Equal,
    EqualEqual,
    Greater,
    GreaterEqual,
    Less,
    LessEqual,
    Ident(&'a str),
    Number(&'a str),
    Else,
    False,
    If,
    True,
}

/// The mathematical value of a [`TokenKind`]: the same variants, with texts
/// as sequences of characters.
pub enum KindView {
    LParen,
    RParen,
    LBrace,
    RBrace,
    Comma,
    Minus,
    Plus,
    Semicolon,
    Slash,
    Star,
    Dollar,
    PlusEqual,
    MinusEqual,
    MultiplyEqual,
    DivideEqual,
    Bang,
    BangEqual,
    Equal,
    EqualEqual,
    Greater,
    GreaterEqual,
    Less,
    LessEqual,
    Ident(Seq<char>),
    Number(Seq<char>),
    Else,
    False,
    If,
    True,
}

impl<'a> View for TokenKind<'a> {
    type V = KindView;

    open spec fn view(&self) -> KindView {
        match self {
            TokenKind::LParen => KindView::LParen,
            TokenKind::RParen => KindView::RParen,
            TokenKind::LBrace => KindView::LBrace,
            TokenKind::RBrace => KindView::RBrace,
            TokenKind::Comma => KindView::Comma,
            TokenKind::Minus => KindView::Minus,
            TokenKind::Plus => KindView::Plus,
            TokenKind::Semicolon => KindView::Semicolon,
            TokenKind::Slash => KindView::Slash,
            TokenKind::Star => KindView::Star,
            TokenKind::Dollar => KindView::Dollar,
            TokenKind::PlusEqual => KindView::PlusEqual,
            TokenKind::MinusEqual => KindView::MinusEqual,
            TokenKind::MultiplyEqual => KindView::MultiplyEqual,
            TokenKind::DivideEqual => KindView::DivideEqual,
            TokenKind::Bang => KindView::Bang,
            TokenKind::BangEqual => KindView::BangEqual,
            TokenKind::Equal => KindView::Equal,
            TokenKind::EqualEqual => KindView::EqualEqual,
            TokenKind::Greater => KindView::Greater,
            TokenKind::GreaterEqual => KindView::GreaterEqual,
            TokenKind::Less => KindView::Less,
            TokenKind::LessEqual => KindView::LessEqual,
            TokenKind::Ident(text) => KindView::Ident(text@),
            TokenKind::Number(text) => KindView::Number(text@),
            TokenKind::Else => KindView::Else,
            TokenKind::False => KindView::False,
            TokenKind::If => KindView::If,
            TokenKind::True => KindView::True,
        }
    }
}

/// The kind of a word: one of the four keywords where the text is exactly
/// that keyword, an identifier with that text otherwise.
pub open spec fn word_kind(text: Seq<char>) -> KindView {
    if text == "else"@ {
        KindView::Else
    } else if text == "false"@ {
        KindView::False
    } else if text == "if"@ {
        KindView::If
    } else if text == "true"@ {
        KindView::True
    } else {
        KindView::Ident(text)
    }
}

impl<'a> TokenKind<'a> {
    /// Folds a word into its kind: a keyword kind for `else`, `false`, `if`
    /// and `true`, `Ident` with the word for any other text.
    pub fn ident(ident: &'a str) -> (kind: Self)
        ensures
            kind@ == word_kind(ident@),
    {
        if same_text(ident, "else") {
            TokenKind::Else
        } else if same_text(ident, "false") {
            TokenKind::False
        } else if same_text(ident, "if") {
            TokenKind::If
        } else if same_text(ident, "true") {
            TokenKind::True
        } else {
            TokenKind::Ident(ident)
        }
    }
}

impl<'a> PartialEq for TokenKind<'a> {
    /// Two kinds are equal when they are the same variant with the same text.
    fn eq(&self, other: &Self) -> (same: bool) {
        match (self, other) {
            (TokenKind::LParen, TokenKind::LParen) => true,
            (TokenKind::RParen, TokenKind::RParen) => true,
            (TokenKind::LBrace, TokenKind::LBrace) => true,
            (TokenKind::RBrace, TokenKind::RBrace) => true,
            (TokenKind::Comma, TokenKind::Comma) => true,
            (TokenKind::Minus, TokenKind::Minus) => true,
            (TokenKind::Plus, TokenKind::Plus) => true,
            (TokenKind::Semicolon, TokenKind::Semicolon) => true,
            (TokenKind::Slash, TokenKind::Slash) => true,
            (TokenKind::Star, TokenKind::Star) => true,
            (TokenKind::Dollar, TokenKind::Dollar) => true,
            (TokenKind::PlusEqual, TokenKind::PlusEqual) => true,
            (TokenKind::MinusEqual, TokenKind::MinusEqual) => true,
            (TokenKind::MultiplyEqual, TokenKind::MultiplyEqual) => true,
            (TokenKind::DivideEqual, TokenKind::DivideEqual) => true,
            (TokenKind::Bang, TokenKind::Bang) => true,
            (TokenKind::BangEqual, TokenKind::BangEqual) => true,
            (TokenKind::Equal, TokenKind::Equal) => true,
            (TokenKind::EqualEqual, TokenKind::EqualEqual) => true,
            (TokenKind::Greater, TokenKind::Greater) => true,
            (TokenKind::GreaterEqual, TokenKind::GreaterEqual) => true,
            (TokenKind::Less, TokenKind::Less) => true,
            (TokenKind::LessEqual, TokenKind::LessEqual) => true,
            (TokenKind::Ident(a), TokenKind::Ident(b)) => same_text(a, b),
            (TokenKind::Number(a), TokenKind::Number(b)) => same_text(a, b),
            (TokenKind::Else, TokenKind::Else) => true,
            (TokenKind::False, TokenKind::False) => true,
            (TokenKind::If, TokenKind::If) => true,
            (TokenKind::True, TokenKind::True) => true,
            _ => false,
        }
    }
}

impl<'a> PartialEqSpecImpl for TokenKind<'a> {
    open spec fn obeys_eq_spec() -> bool {
        true
    }

    open spec fn eq_spec(&self, other: &Self) -> bool {
        self@ == other@
    }
}

/// One lexical unit: its kind, the line and column of its first character
/// (both counted from 1), and the text it was read from.
#[derive(Clone, Copy, Debug, PartialEq)]
pub struct Token<'a> {
    pub kind: TokenKind<'a>,
    pub line: u32,
    pub col: u32,
    pub span: &'a str,
}

/// The mathematical value of a [`Token`].
pub struct TokenView {
    pub kind: KindView,
    pub line: int,
    pub col: int,
    pub span: Seq<char>,
}

impl<'a> View for Token<'a> {
    type V = TokenView;

    open spec fn view(&self) -> TokenView {
        TokenView { kind: self.kind@, line: self.line as int, col: self.col as int, span: self.span@ }
    }
}

impl<'a> Token<'a> {
    /// The token with these fields.
    pub fn new(kind: TokenKind<'a>, line: u32, col: u32, span: &'a str) -> (token: Self)
        ensures
            token.kind == kind,
            token.line == line,
            token.col == col,
            token.span == span,
    {
        Token { kind, line, col, span }
    }
}

/// The values of a sequence of tokens, in order.
pub open spec fn tokens_view(tokens: Seq<Token>) -> Seq<TokenView> {
    tokens.map_values(|t: Token| t@)
}

} // verus!
