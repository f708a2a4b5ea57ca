//! Tokens and the source spans they carry.

use vstd::prelude::*;

verus! {

/// Where a token sits in the source: the byte offsets `start..end`, their
/// distance `len`, and the one-based line and column of the first byte.
#[derive(Clone, Copy, Debug, PartialEq, Eq)]
pub struct Pos {
    pub start: usize,
    pub line: usize,
    pub column: usize,
    pub end: usize,
    pub len: usize,
}

/// A source span over mathematical integers.
pub struct SourceSpan {
    pub start: int,
    pub line: int,
    pub column: int,
    pub end: int,
    pub len: int,
}

impl View for Pos {
    type V = SourceSpan;

    open spec fn view(&self) -> SourceSpan {
        SourceSpan {
            start: self.start as int,
            line: self.line as int,
            column: self.column as int,
            end: self.end as int,
            len: self.len as int,
        }
    }
}

impl SourceSpan {
    /// The span ends no earlier than it starts, and `len` is the distance.
    pub open spec fn wf(self) -> bool {
        self.start <= self.end && self.len == self.end - self.start
    }
}

impl Pos {
    /// Builds the span `start..end` at the given line and column.
    pub fn new(start: usize, line: usize, column: usize, end: usize) -> (pos: Self)
        requires
            start <= end,
        ensures
            pos.start == start,
            pos.line == line,
            pos.column == column,
            pos.end == end,
            pos.len == end - start,
            pos@.wf(),
    {
        let length = end - start;
        Self { start: start, line: line, column: column, end: end, len: length }
    }
}

/// What a token is. The three literal kinds own a copy of their text.
#[derive(Debug, PartialEq, Eq)]
pub enum TokenKind {
    /// A newline.
    EOL,
    /// A space or a tab.
    Space,
    /// `[`
    OpenBrace,
    /// `]`
    CloseBrace,
    /// `(`
    OpenParenthesis,
    /// `)`
    CloseParenthesis,
    /// `:`
    Colon,
    /// `,`
    Comma,
    /// `@`
    Directive,
    /// `-`
    Dash,
    /// `->`
    Arrow,
    /// A `#` and the rest of its line; the text is what follows the `#`.
    Comment(String),
    /// A run of letters and underscores that starts with a letter.
    IdentLiteral(String),
    /// A run of decimal digits, kept as text.
    Number(String),
    /// A byte that starts no token of the language.
    Invalid,
}

/// A token kind whose literal text is a sequence of characters.
pub enum TokenKindView {
    EOL,
    Space,
    OpenBrace,
    CloseBrace,
    OpenParenthesis,
    CloseParenthesis,
    Colon,
    Comma,
    Directive,
    Dash,
    Arrow,
    Comment(Seq<char>),
    IdentLiteral(Seq<char>),
    Number(Seq<char>),
    Invalid,
}

impl View for TokenKind {
    type V = TokenKindView;

    open spec fn view(&self) -> TokenKindView {
        match *self {
            TokenKind::EOL => TokenKindView::EOL,
            TokenKind::Space => TokenKindView::Space,
            TokenKind::OpenBrace => TokenKindView::OpenBrace,
            TokenKind::CloseBrace => TokenKindView::CloseBrace,
            TokenKind::OpenParenthesis => TokenKindView::OpenParenthesis,
            TokenKind::CloseParenthesis => TokenKindView::CloseParenthesis,
            TokenKind::Colon => TokenKindView::Colon,
            TokenKind::Comma => TokenKindView::Comma,
            TokenKind::Directive => TokenKindView::Directive,
            TokenKind::Dash => TokenKindView::Dash,
            TokenKind::Arrow => TokenKindView::Arrow,
            TokenKind::Comment(text) => TokenKindView::Comment(text@),
            TokenKind::IdentLiteral(text) => TokenKindView::IdentLiteral(text@),
            TokenKind::Number(text) => TokenKindView::Number(text@),
            TokenKind::Invalid => TokenKindView::Invalid,
        }
    }
}

impl TokenKindView {
    /// The display label that a token of this kind carries.
    pub open spec fn label(self) -> Seq<char> {
        match self {
            TokenKindView::EOL => "Eol"@,
            TokenKindView::Space => "Space"@,
            TokenKindView::OpenBrace => "OpenBrace"@,
            TokenKindView::CloseBrace => "CloseBrace"@,
            TokenKindView::OpenParenthesis => "OpenParenthesis"@,
            TokenKindView::CloseParenthesis => "CloseParenthesis"@,
            TokenKindView::Colon => "Colon"@,
            TokenKindView::Comma => "Comma"@,
            TokenKindView::Directive => "Directive"@,
            TokenKindView::Dash => "Dash"@,
            TokenKindView::Arrow => "Arrow"@,
            TokenKindView::Comment(_) => "Comment"@,
            TokenKindView::IdentLiteral(_) => "IdentLiteral"@,
            TokenKindView::Number(_) => "NumberLiteral"@,
            TokenKindView::Invalid => "Invalid"@,
        }
    }
}

/// A display label, a kind and a span.
#[derive(Debug, PartialEq, Eq)]
pub struct Token {
    pub lexme: String,
    pub kind: TokenKind,
    pub pos: Pos,
}

/// A token over mathematical values.
pub struct TokenView {
    pub lexme: Seq<char>,
    pub kind: TokenKindView,
    pub pos: SourceSpan,
}

impl View for Token {
    type V = TokenView;

    open spec fn view(&self) -> TokenView {
        TokenView { lexme: self.lexme@, kind: self.kind@, pos: self.pos@ }
    }
}

/// The views of a run of tokens, in order.
pub open spec fn token_views(tokens: Seq<Token>) -> Seq<TokenView> {
    tokens.map_values(|t: Token| t@)
}

impl Token {
    /// Pairs a label, a kind and a span.
    pub fn new(lexme: String, kind: TokenKind, pos: Pos) -> (token: Self)
        ensures
            token.lexme == lexme,
            token.kind == kind,
            token.pos == pos,
    {
        Self { lexme, kind, pos }
    }
}

} // verus!
