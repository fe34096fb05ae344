use vstd::prelude::*;

verus! {

/// Half-open range of character positions in the source text, kept on every
/// token and AST node for diagnostics.
#[derive(Clone, Copy, Debug, PartialEq, Eq, Structural)]
pub struct Span {
    pub start: usize,
    pub end: usize,
}

impl Span {
    pub fn new(start: usize, end: usize) -> (s: Span)
        ensures
            s.start == start,
            s.end == end,
    {
        Span { start, end }
    }
}

/// Builds a span from mathematical positions; meaningful when both fit in `usize`.
pub open spec fn span(start: int, end: int) -> Span {
    Span { start: start as usize, end: end as usize }
}

/// The fixed closed set of punctuation and operator tokens.
#[derive(Clone, Copy, Debug, PartialEq, Eq, Structural)]
pub enum Symbol {
    OpeningParen,
    ClosingParen,
    OpeningBrace,
    ClosingBrace,
    OpeningBoxBracket,
    ClosingBoxBracket,
    Comma,
    Semicolon,
    Colon,
    Point,
    Arrow,
    Inc,
    Dec,
    Add,
    Sub,
    Asterisk,
    Div,
    Mod,
    Not,
    BitwiseNot,
    Shl,
    Shr,
    Lt,
    Le,
    Gt,
    Ge,
    Eq,
    Ne,
    And,
    Or,
    Xor,
    LAnd,
    LOr,
    Question,
    Assign,
    AssignAdd,
    AssignSub,
    AssignMul,
    AssignDiv,
    AssignMod,
    AssignShl,
    AssignShr,
    AssignAnd,
    AssignOr,
    AssignXor,
    AssignLAnd,
    AssignLOr,
    Hash,
}

/// The kind a token represents.  A float literal carries its scanned text with
/// any trailing non-numeric suffix removed; the engine never computes with
/// float values, so the text is the value the rest of the pipeline carries.
#[derive(Clone, Debug, PartialEq)]
pub enum TokenKind {
    Identifier(String),
    Int(i64),
    Float(String),
    Str(String),
    Symbol(Symbol),
    Newline,
}

/// Mathematical model of a token kind: text becomes a character sequence.
pub enum TokenKindView {
    Identifier(Seq<char>),
    Int(i64),
    Float(Seq<char>),
    Str(Seq<char>),
    Symbol(Symbol),
    Newline,
}

impl View for TokenKind {
    type V = TokenKindView;

    open spec fn view(&self) -> TokenKindView {
        match self {
            TokenKind::Identifier(s) => TokenKindView::Identifier(s@),
            TokenKind::Int(n) => TokenKindView::Int(*n),
            TokenKind::Float(s) => TokenKindView::Float(s@),
            TokenKind::Str(s) => TokenKindView::Str(s@),
            TokenKind::Symbol(s) => TokenKindView::Symbol(*s),
            TokenKind::Newline => TokenKindView::Newline,
        }
    }
}

/// A token: a kind together with the source range it was read from.
#[derive(Clone, Debug, PartialEq)]
pub struct Token {
    pub kind: TokenKind,
    pub range: Span,
}

/// Mathematical model of a token.
pub struct TokenView {
    pub kind: TokenKindView,
    pub range: Span,
}

impl View for Token {
    type V = TokenView;

    open spec fn view(&self) -> TokenView {
        TokenView { kind: self.kind@, range: self.range }
    }
}

impl Token {
    pub fn new_identifier(name: String, range: Span) -> (t: Token)
        ensures
            t@.kind == TokenKindView::Identifier(name@),
            t@.range == range,
    {
        Token { kind: TokenKind::Identifier(name), range }
    }

    pub fn new_int(n: i64, range: Span) -> (t: Token)
        ensures
            t@.kind == TokenKindView::Int(n),
            t@.range == range,
    {
        Token { kind: TokenKind::Int(n), range }
    }

    /// A float token holds the trimmed literal text rather than a machine
    /// float: runtime float arithmetic is outside this engine's scope.
    pub fn new_float(text: String, range: Span) -> (t: Token)
        ensures
            t@.kind == TokenKindView::Float(text@),
            t@.range == range,
    {
        Token { kind: TokenKind::Float(text), range }
    }

    pub fn new_string(s: String, range: Span) -> (t: Token)
        ensures
            t@.kind == TokenKindView::Str(s@),
            t@.range == range,
    {
        Token { kind: TokenKind::Str(s), range }
    }

    pub fn new_symbol(symbol: Symbol, range: Span) -> (t: Token)
        ensures
            t@.kind == TokenKindView::Symbol(symbol),
            t@.range == range,
    {
        Token { kind: TokenKind::Symbol(symbol), range }
    }

    pub fn new_newline(range: Span) -> (t: Token)
        ensures
            t@.kind == TokenKindView::Newline,
            t@.range == range,
    {
        Token { kind: TokenKind::Newline, range }
    }
}

} // verus!
