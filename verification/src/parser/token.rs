//! The lexical unit: a classified lexeme together with its source span.

use vstd::prelude::*;

use crate::feedback::loc::Span;
use crate::intern::IntStr;

verus! {

/// A token: kind plus span, immutable once produced.
#[derive(Debug, Clone, PartialEq, Eq)]
pub struct Token {
    pub span: Span,
    pub info: TokenInfo,
}

impl Token {
    pub open spec fn spec_span(&self) -> Span {
        self.span
    }

    pub open spec fn spec_info(&self) -> TokenInfo {
        self.info
    }

    pub fn new(span: Span, info: TokenInfo) -> (t: Token)
        ensures
            t.spec_span() == span,
            t.spec_info() == info,
    {
        Token { span, info }
    }

    pub fn loc(&self) -> (s: Span)
        ensures
            s == self.spec_span(),
    {
        self.span
    }

    pub fn info(&self) -> (i: &TokenInfo)
        ensures
            *i == self.spec_info(),
    {
        &self.info
    }
}

/// What a token is: identifier, literal, punctuation, keyword, or a
/// synthesized structural token.
#[derive(Debug, Clone, PartialEq, Eq)]
pub enum TokenInfo {
    TypeIdentifier(IntStr),
    ValueIdentifier(IntStr),
    LiteralString(String),
    LiteralInteger(String, IntegerFormat),
    LiteralFloat { mantissa: String, exponent: Option<String> },
    Period,
    Comma,
    Colon,
    LeftParenthesis,
    RightParenthesis,
    LeftSquareBracket,
    RightSquareBracket,
    LeftCurlyBrace,
    RightCurlyBrace,
    Assign,
    Update,
    GetKeyword,
    SetKeyword,
    ValueSelfKeyword,
    TypeSelfKeyword,
    InKeyword,
    MutKeyword,
    WeakKeyword,
    UseKeyword,
    AssertKeyword,
    Asterisk,
    Divide,
    Quotient,
    Modulo,
    Plus,
    Minus,
    ExclamationPoint,
    LeftShift,
    RightShift,
    LessThan,
    GreaterThan,
    LessThanOrEquals,
    GreaterThanOrEquals,
    Equals,
    NotEquals,
    BitwiseXOr,
    BitwiseAnd,
    BitwiseOr,
    LogicalAnd,
    LogicalOr,
    Indent,
    EndOfLine,
    Dedent,
}

/// The base a literal integer was written in.
#[derive(Debug, Clone, Copy, PartialEq, Eq, Structural)]
pub enum IntegerFormat {
    Decimal,
    Hexadecimal,
}

/// The mathematical value of a token: its span together with its kind over
/// plain sequences and handle numbers, so contracts can speak of the token
/// stream a text yields.
pub struct TokenView {
    pub span: Span,
    pub info: TokenInfoView,
}

/// The mathematical value of a token kind: literal texts as character
/// sequences, interned handles as their numbers.
pub enum TokenInfoView {
    TypeIdentifier(int),
    ValueIdentifier(int),
    LiteralString(Seq<char>),
    LiteralInteger(Seq<char>, IntegerFormat),
    LiteralFloat { mantissa: Seq<char>, exponent: Option<Seq<char>> },
    Period,
    Comma,
    Colon,
    LeftParenthesis,
    RightParenthesis,
    LeftSquareBracket,
    RightSquareBracket,
    LeftCurlyBrace,
    RightCurlyBrace,
    Assign,
    Update,
    GetKeyword,
    SetKeyword,
    ValueSelfKeyword,
    TypeSelfKeyword,
    InKeyword,
    MutKeyword,
    WeakKeyword,
    UseKeyword,
    AssertKeyword,
    Asterisk,
    Divide,
    Quotient,
    Modulo,
    Plus,
    Minus,
    ExclamationPoint,
    LeftShift,
    RightShift,
    LessThan,
    GreaterThan,
    LessThanOrEquals,
    GreaterThanOrEquals,
    Equals,
    NotEquals,
    BitwiseXOr,
    BitwiseAnd,
    BitwiseOr,
    LogicalAnd,
    LogicalOr,
    Indent,
    EndOfLine,
    Dedent,
}

/// The mathematical value of a token kind.
pub open spec fn info_view(i: TokenInfo) -> TokenInfoView {
    match i {
        TokenInfo::TypeIdentifier(id) => TokenInfoView::TypeIdentifier(id.sid()),
        TokenInfo::ValueIdentifier(id) => TokenInfoView::ValueIdentifier(id.sid()),
        TokenInfo::LiteralString(s) => TokenInfoView::LiteralString(s@),
        TokenInfo::LiteralInteger(s, f) => TokenInfoView::LiteralInteger(s@, f),
        TokenInfo::LiteralFloat { mantissa, exponent } => TokenInfoView::LiteralFloat {
            mantissa: mantissa@,
            exponent: match exponent {
                Some(x) => Some(x@),
                None => None,
            },
        },
        TokenInfo::Period => TokenInfoView::Period,
        TokenInfo::Comma => TokenInfoView::Comma,
        TokenInfo::Colon => TokenInfoView::Colon,
        TokenInfo::LeftParenthesis => TokenInfoView::LeftParenthesis,
        TokenInfo::RightParenthesis => TokenInfoView::RightParenthesis,
        TokenInfo::LeftSquareBracket => TokenInfoView::LeftSquareBracket,
        TokenInfo::RightSquareBracket => TokenInfoView::RightSquareBracket,
        TokenInfo::LeftCurlyBrace => TokenInfoView::LeftCurlyBrace,
        TokenInfo::RightCurlyBrace => TokenInfoView::RightCurlyBrace,
        TokenInfo::Assign => TokenInfoView::Assign,
        TokenInfo::Update => TokenInfoView::Update,
        TokenInfo::GetKeyword => TokenInfoView::GetKeyword,
        TokenInfo::SetKeyword => TokenInfoView::SetKeyword,
        TokenInfo::ValueSelfKeyword => TokenInfoView::ValueSelfKeyword,
        TokenInfo::TypeSelfKeyword => TokenInfoView::TypeSelfKeyword,
        TokenInfo::InKeyword => TokenInfoView::InKeyword,
        TokenInfo::MutKeyword => TokenInfoView::MutKeyword,
        TokenInfo::WeakKeyword => TokenInfoView::WeakKeyword,
        TokenInfo::UseKeyword => TokenInfoView::UseKeyword,
        TokenInfo::AssertKeyword => TokenInfoView::AssertKeyword,
        TokenInfo::Asterisk => TokenInfoView::Asterisk,
        TokenInfo::Divide => TokenInfoView::Divide,
        TokenInfo::Quotient => TokenInfoView::Quotient,
        TokenInfo::Modulo => TokenInfoView::Modulo,
        TokenInfo::Plus => TokenInfoView::Plus,
        TokenInfo::Minus => TokenInfoView::Minus,
        TokenInfo::ExclamationPoint => TokenInfoView::ExclamationPoint,
        TokenInfo::LeftShift => TokenInfoView::LeftShift,
        TokenInfo::RightShift => TokenInfoView::RightShift,
        TokenInfo::LessThan => TokenInfoView::LessThan,
        TokenInfo::GreaterThan => TokenInfoView::GreaterThan,
        TokenInfo::LessThanOrEquals => TokenInfoView::LessThanOrEquals,
        TokenInfo::GreaterThanOrEquals => TokenInfoView::GreaterThanOrEquals,
        TokenInfo::Equals => TokenInfoView::Equals,
        TokenInfo::NotEquals => TokenInfoView::NotEquals,
        TokenInfo::BitwiseXOr => TokenInfoView::BitwiseXOr,
        TokenInfo::BitwiseAnd => TokenInfoView::BitwiseAnd,
        TokenInfo::BitwiseOr => TokenInfoView::BitwiseOr,
        TokenInfo::LogicalAnd => TokenInfoView::LogicalAnd,
        TokenInfo::LogicalOr => TokenInfoView::LogicalOr,
        TokenInfo::Indent => TokenInfoView::Indent,
        TokenInfo::EndOfLine => TokenInfoView::EndOfLine,
        TokenInfo::Dedent => TokenInfoView::Dedent,
    }
}

/// The mathematical value of a token.
pub open spec fn token_view(t: Token) -> TokenView {
    TokenView { span: t.span, info: info_view(t.info) }
}

/// The mathematical values of a token sequence.
pub open spec fn views_of(s: Seq<Token>) -> Seq<TokenView> {
    s.map_values(|t: Token| token_view(t))
}

pub proof fn lemma_views_of(s: Seq<Token>)
    ensures
        views_of(s).len() == s.len(),
        forall|i: int| 0 <= i < s.len() ==> views_of(s)[i] == token_view(s[i]),
{
}

} // verus!
