//! The token alphabet shared by the tokenizer and the parser, together with
//! source spans and the canonical rendering of tokens and token descriptions.

use vstd::prelude::*;

verus! {

/// A half-open interval `[start, end)` of offsets into the source text.
/// Offsets count Unicode scalar values.
#[derive(Clone, Copy, Debug, PartialEq, Eq, Hash, Structural)]
pub struct Span {
    pub start: usize,
    pub end: usize,
}

/// One lexical unit. `Ident` carries the identifier text; every other
/// variant is determined by its category alone. Whitespace is recognized
/// and discarded by the tokenizer, never emitted. A character that matches
/// no rule becomes `Invalid` so that parsing can still report a precise
/// location.
#[derive(Clone, Debug, PartialEq, Eq, Hash)]
pub enum Token {
    Lambda,
    Dot,
    Binding,
    ParenOpen,
    ParenClose,
    Ident(String),
    Invalid,
}

/// The mathematical value of a [`Token`]: identifier text as a character
/// sequence.
pub enum TokenV {
    Lambda,
    Dot,
    Binding,
    ParenOpen,
    ParenClose,
    Ident(Seq<char>),
    Invalid,
}

impl View for Token {
    type V = TokenV;

    open spec fn view(&self) -> TokenV {
        match self {
            Token::Lambda => TokenV::Lambda,
            Token::Dot => TokenV::Dot,
            Token::Binding => TokenV::Binding,
            Token::ParenOpen => TokenV::ParenOpen,
            Token::ParenClose => TokenV::ParenClose,
            Token::Ident(s) => TokenV::Ident(s@),
            Token::Invalid => TokenV::Invalid,
        }
    }
}

/// A lexical category without its text: the descriptions used in the
/// `expected` set of a syntax error.
#[derive(Clone, Copy, Debug, PartialEq, Eq, Hash, Structural)]
pub enum TokenKind {
    Lambda,
    Dot,
    Binding,
    ParenOpen,
    ParenClose,
    Ident,
    Invalid,
}

/// One token paired with the span it was read from.
#[derive(Clone, Debug)]
pub struct SpannedToken {
    pub token: Token,
    pub span: Span,
}

impl View for SpannedToken {
    type V = (TokenV, Span);

    open spec fn view(&self) -> (TokenV, Span) {
        (self.token@, self.span)
    }
}

/// The category of a token value.
pub open spec fn kind_of_spec(t: TokenV) -> TokenKind {
    match t {
        TokenV::Lambda => TokenKind::Lambda,
        TokenV::Dot => TokenKind::Dot,
        TokenV::Binding => TokenKind::Binding,
        TokenV::ParenOpen => TokenKind::ParenOpen,
        TokenV::ParenClose => TokenKind::ParenClose,
        TokenV::Ident(_) => TokenKind::Ident,
        TokenV::Invalid => TokenKind::Invalid,
    }
}

/// The category of a token.
pub fn kind_of(t: &Token) -> (k: TokenKind)
    ensures
        k == kind_of_spec(t@),
{
    match t {
        Token::Lambda => TokenKind::Lambda,
        Token::Dot => TokenKind::Dot,
        Token::Binding => TokenKind::Binding,
        Token::ParenOpen => TokenKind::ParenOpen,
        Token::ParenClose => TokenKind::ParenClose,
        Token::Ident(_) => TokenKind::Ident,
        Token::Invalid => TokenKind::Invalid,
    }
}

/// The canonical display text of a token: the source text it stands for,
/// or `[invalid]` for the error category.
pub open spec fn token_text_spec(t: TokenV) -> Seq<char> {
    match t {
        TokenV::Lambda => "\u{3bb}"@,
        TokenV::Dot => "."@,
        TokenV::Binding => ":="@,
        TokenV::ParenOpen => "("@,
        TokenV::ParenClose => ")"@,
        TokenV::Ident(s) => s,
        TokenV::Invalid => "[invalid]"@,
    }
}

/// Renders a token as display text. The single source of truth for how a
/// concrete token is shown in diagnostics.
pub fn token_text(t: &Token) -> (r: String)
    ensures
        r@ == token_text_spec(t@),
{
    match t {
        Token::Lambda => String::from_str("\u{3bb}"),
        Token::Dot => String::from_str("."),
        Token::Binding => String::from_str(":="),
        Token::ParenOpen => String::from_str("("),
        Token::ParenClose => String::from_str(")"),
        Token::Ident(s) => s.clone(),
        Token::Invalid => String::from_str("[invalid]"),
    }
}

/// The canonical human-readable description of a lexical category, used
/// when a syntax error lists what it expected.
pub open spec fn kind_text_spec(k: TokenKind) -> Seq<char> {
    match k {
        TokenKind::Lambda => "'\u{3bb}'"@,
        TokenKind::Dot => "'.'"@,
        TokenKind::Binding => "':='"@,
        TokenKind::ParenOpen => "'('"@,
        TokenKind::ParenClose => "')'"@,
        TokenKind::Ident => "identifier"@,
        TokenKind::Invalid => "invalid token"@,
    }
}

/// Renders a token description. The single source of truth for how an
/// expected lexical category is shown in diagnostics.
pub fn kind_text(k: TokenKind) -> (r: String)
    ensures
        r@ == kind_text_spec(k),
{
    match k {
        TokenKind::Lambda => String::from_str("'\u{3bb}'"),
        TokenKind::Dot => String::from_str("'.'"),
        TokenKind::Binding => String::from_str("':='"),
        TokenKind::ParenOpen => String::from_str("'('"),
        TokenKind::ParenClose => String::from_str("')'"),
        TokenKind::Ident => String::from_str("identifier"),
        TokenKind::Invalid => String::from_str("invalid token"),
    }
}

} // verus!
