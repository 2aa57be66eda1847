//! Token model: a tagged token kind together with its source span.

use vstd::prelude::*;

verus! {

/// Source location of a token: character offsets plus line and column,
/// both 1-indexed, for diagnostics.
#[derive(Debug, Clone, Copy, PartialEq, Eq, Structural)]
pub struct Span {
    pub start: usize,
    pub end: usize,
    pub line: usize,
    pub column: usize,
}

/// Mathematical image of a `Span`, over unbounded integers.
pub struct SpanV {
    pub start: int,
    pub end: int,
    pub line: int,
    pub column: int,
}

impl View for Span {
    type V = SpanV;

    open spec fn view(&self) -> SpanV {
        SpanV {
            start: self.start as int,
            end: self.end as int,
            line: self.line as int,
            column: self.column as int,
        }
    }
}

impl Span {
    pub fn new(start: usize, end: usize, line: usize, column: usize) -> (s: Span)
        ensures
            s == (Span { start, end, line, column }),
    {
        Span { start, end, line, column }
    }
}

/// The kinds of token the lexer emits.
#[derive(Debug, Clone, PartialEq)]
pub enum TokenKind {
    /// A bare word: a command name or argument.
    Word(String),
    /// A quoted string literal, with quotes removed and escapes resolved.
    Quoted(String),
    /// `|`
    Pipe,
    /// `>`
    RedirectOut,
    /// `<`
    RedirectIn,
    /// `>>`
    Append,
    /// `&&`
    And,
    /// `||`
    Or,
    /// `;`, or the Arabic semicolon
    Semicolon,
    /// A single `&`, marking background execution.
    Background,
    /// A newline, significant and distinct from `;`.
    Newline,
    /// End of the input line.
    Eof,
    /// A malformed lexeme, carrying a diagnostic message.
    Error(String),
}

/// Mathematical image of a `TokenKind`: the same tags over character
/// sequences.
pub enum TokenKindV {
    Word(Seq<char>),
    Quoted(Seq<char>),
    Pipe,
    RedirectOut,
    RedirectIn,
    Append,
    And,
    Or,
    Semicolon,
    Background,
    Newline,
    Eof,
    Error(Seq<char>),
}

impl View for TokenKind {
    type V = TokenKindV;

    open spec fn view(&self) -> TokenKindV {
        match self {
            TokenKind::Word(s) => TokenKindV::Word(s@),
            TokenKind::Quoted(s) => TokenKindV::Quoted(s@),
            TokenKind::Pipe => TokenKindV::Pipe,
            TokenKind::RedirectOut => TokenKindV::RedirectOut,
            TokenKind::RedirectIn => TokenKindV::RedirectIn,
            TokenKind::Append => TokenKindV::Append,
            TokenKind::And => TokenKindV::And,
            TokenKind::Or => TokenKindV::Or,
            TokenKind::Semicolon => TokenKindV::Semicolon,
            TokenKind::Background => TokenKindV::Background,
            TokenKind::Newline => TokenKindV::Newline,
            TokenKind::Eof => TokenKindV::Eof,
            TokenKind::Error(s) => TokenKindV::Error(s@),
        }
    }
}

/// A token: its kind, its span, and the raw text it covers.
#[derive(Debug, Clone, PartialEq)]
pub struct Token {
    pub kind: TokenKind,
    pub span: Span,
    pub lexeme: String,
}

/// Mathematical image of a `Token`.
pub struct TokenV {
    pub kind: TokenKindV,
    pub span: SpanV,
    pub lexeme: Seq<char>,
}

impl View for Token {
    type V = TokenV;

    open spec fn view(&self) -> TokenV {
        TokenV { kind: self.kind@, span: self.span@, lexeme: self.lexeme@ }
    }
}

impl Token {
    pub fn new(kind: TokenKind, span: Span, lexeme: String) -> (t: Token)
        ensures
            t@ == (TokenV { kind: kind@, span: span@, lexeme: lexeme@ }),
    {
        Token { kind, span, lexeme }
    }
}

} // verus!
