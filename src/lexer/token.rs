use vstd::prelude::*;
use vstd::string::StrSliceExecFns;

verus! {

/// One lexeme of the source: its kind and the locations where it starts and where
/// it ends (just past its last character).
#[derive(Debug, Clone, PartialEq)]
pub struct Token {
    pub kind: TokenKind,
    pub start: SourceLocation,
    pub end: SourceLocation,
}

impl Token {
    pub fn new(kind: TokenKind, start: SourceLocation, end: SourceLocation) -> (r: Token)
        ensures
            r == (Token { kind, start, end }),
    {
        Token { kind, start, end }
    }

    pub fn kind(&self) -> (r: &TokenKind)
        ensures
            *r == self.kind,
    {
        &self.kind
    }
}

/// A 1-based (line, column) position in the source text.
#[derive(Debug, Clone, Copy, PartialEq, Eq, Structural)]
pub struct SourceLocation {
    pub line: usize,
    pub column: usize,
}

impl SourceLocation {
    pub fn new(line: usize, column: usize) -> (r: SourceLocation)
        ensures
            r.line == line,
            r.column == column,
    {
        SourceLocation { line, column }
    }

    pub fn line(&self) -> (r: usize)
        ensures
            r == self.line,
    {
        self.line
    }

    pub fn column(&self) -> (r: usize)
        ensures
            r == self.column,
    {
        self.column
    }
}

/// The reserved words of the language.
#[derive(Debug, Clone, Copy, PartialEq, Eq, Structural)]
pub enum Keyword {
    Let,
    Fn,
    If,
    Else,
}

/// A literal value as it appears in the source.
#[derive(Debug, Clone, PartialEq)]
pub enum Literal {
    Int(i32),
    Bool(bool),
    String(String),
}

/// The classification of one lexeme.
#[derive(Debug, Clone, PartialEq)]
pub enum TokenKind {
    Eq,
    Plus,
    Minus,
    Asterisk,
    Slash,
    NotEq,
    GreaterThan,
    GreaterThanEq,
    EqEq,
    LessThan,
    LessThanEq,
    OpenBrace,
    CloseBrace,
    OpenParen,
    CloseParen,
    OpenBracket,
    CloseBracket,
    Comma,
    Semicolon,
    Colon,
    Period,
    QuestionMark,
    Negate,
    Literal(Literal),
    Identifier(String),
    Keyword(Keyword),
}

/// What a literal denotes, with its text as a sequence of characters.
pub enum LiteralView {
    Int(i32),
    Bool(bool),
    Str(Seq<char>),
}

/// What a token kind denotes: punctuation and operators stand for themselves.
pub enum KindView {
    Symbol(TokenKind),
    Literal(LiteralView),
    Identifier(Seq<char>),
    Keyword(Keyword),
}

impl View for Literal {
    type V = LiteralView;

    open spec fn view(&self) -> LiteralView {
        match self {
            Literal::Int(n) => LiteralView::Int(*n),
            Literal::Bool(b) => LiteralView::Bool(*b),
            Literal::String(s) => LiteralView::Str(s@),
        }
    }
}

impl View for TokenKind {
    type V = KindView;

    open spec fn view(&self) -> KindView {
        match self {
            TokenKind::Literal(l) => KindView::Literal(l@),
            TokenKind::Identifier(s) => KindView::Identifier(s@),
            TokenKind::Keyword(k) => KindView::Keyword(*k),
            _ => KindView::Symbol(*self),
        }
    }
}

/// What a token denotes.
pub struct TokenView {
    pub kind: KindView,
    pub start: SourceLocation,
    pub end: SourceLocation,
}

impl View for Token {
    type V = TokenView;

    open spec fn view(&self) -> TokenView {
        TokenView { kind: self.kind@, start: self.start, end: self.end }
    }
}

/// The punctuation or operator that a single character stands for.
pub open spec fn symbol_of(c: char) -> Option<TokenKind> {
    match c {
        '=' => Some(TokenKind::Eq),
        '+' => Some(TokenKind::Plus),
        '-' => Some(TokenKind::Minus),
        '*' => Some(TokenKind::Asterisk),
        '/' => Some(TokenKind::Slash),
        '>' => Some(TokenKind::GreaterThan),
        '<' => Some(TokenKind::LessThan),
        '{' => Some(TokenKind::OpenBrace),
        '}' => Some(TokenKind::CloseBrace),
        '(' => Some(TokenKind::OpenParen),
        ')' => Some(TokenKind::CloseParen),
        '[' => Some(TokenKind::OpenBracket),
        ']' => Some(TokenKind::CloseBracket),
        ',' => Some(TokenKind::Comma),
        ';' => Some(TokenKind::Semicolon),
        ':' => Some(TokenKind::Colon),
        '.' => Some(TokenKind::Period),
        '?' => Some(TokenKind::QuestionMark),
        '!' => Some(TokenKind::Negate),
        _ => None,
    }
}

/// The two-character operator that a single-character one becomes when `=` follows.
pub open spec fn with_equals(k: TokenKind) -> Option<TokenKind> {
    match k {
        TokenKind::Eq => Some(TokenKind::EqEq),
        TokenKind::GreaterThan => Some(TokenKind::GreaterThanEq),
        TokenKind::LessThan => Some(TokenKind::LessThanEq),
        TokenKind::Negate => Some(TokenKind::NotEq),
        _ => None,
    }
}

pub open spec fn keyword_of(w: Seq<char>) -> Option<Keyword> {
    if w == "let"@ {
        Some(Keyword::Let)
    } else if w == "fn"@ {
        Some(Keyword::Fn)
    } else if w == "if"@ {
        Some(Keyword::If)
    } else if w == "else"@ {
        Some(Keyword::Else)
    } else {
        None
    }
}

pub open spec fn bool_of(w: Seq<char>) -> Option<bool> {
    if w == "true"@ {
        Some(true)
    } else if w == "false"@ {
        Some(false)
    } else {
        None
    }
}

/// Whether two strings hold the same characters.
pub fn str_eq(a: &str, b: &str) -> (r: bool)
    ensures
        r == (a@ == b@),
{
    let n = a.unicode_len();
    if n != b.unicode_len() {
        return false;
    }
    let mut i: usize = 0;
    while i < n
        invariant
            n == a@.len() == b@.len(),
            i <= n,
            a@.subrange(0, i as int) == b@.subrange(0, i as int),
        decreases n - i,
    {
        if a.get_char(i) != b.get_char(i) {
            assert(a@[i as int] != b@[i as int]);
            return false;
        }
        assert(a@.subrange(0, i + 1) =~= a@.subrange(0, i as int).push(a@[i as int]));
        assert(b@.subrange(0, i + 1) =~= b@.subrange(0, i as int).push(b@[i as int]));
        i = i + 1;
    }
    assert(a@ =~= a@.subrange(0, n as int));
    assert(b@ =~= b@.subrange(0, n as int));
    true
}

impl TokenKind {
    pub fn from_char(ch: char) -> (r: Option<TokenKind>)
        ensures
            r == symbol_of(ch),
    {
        match ch {
            '=' => Some(TokenKind::Eq),
            '+' => Some(TokenKind::Plus),
            '-' => Some(TokenKind::Minus),
            '*' => Some(TokenKind::Asterisk),
            '/' => Some(TokenKind::Slash),
            '>' => Some(TokenKind::GreaterThan),
            '<' => Some(TokenKind::LessThan),
            '{' => Some(TokenKind::OpenBrace),
            '}' => Some(TokenKind::CloseBrace),
            '(' => Some(TokenKind::OpenParen),
            ')' => Some(TokenKind::CloseParen),
            '[' => Some(TokenKind::OpenBracket),
            ']' => Some(TokenKind::CloseBracket),
            ',' => Some(TokenKind::Comma),
            ';' => Some(TokenKind::Semicolon),
            ':' => Some(TokenKind::Colon),
            '.' => Some(TokenKind::Period),
            '?' => Some(TokenKind::QuestionMark),
            '!' => Some(TokenKind::Negate),
            _ => None,
        }
    }
}

impl Literal {
    pub fn as_bool(s: &str) -> (r: Option<Literal>)
        ensures
            r == (match bool_of(s@) {
                Some(b) => Some(Literal::Bool(b)),
                None => None,
            }),
    {
        if str_eq(s, "true") {
            Some(Literal::Bool(true))
        } else if str_eq(s, "false") {
            Some(Literal::Bool(false))
        } else {
            None
        }
    }
}

impl Keyword {
    pub fn from_str(s: &str) -> (r: Option<Keyword>)
        ensures
            r == keyword_of(s@),
    {
        if str_eq(s, "let") {
            Some(Keyword::Let)
        } else if str_eq(s, "fn") {
            Some(Keyword::Fn)
        } else if str_eq(s, "if") {
            Some(Keyword::If)
        } else if str_eq(s, "else") {
            Some(Keyword::Else)
        } else {
            None
        }
    }
}

impl From<Literal> for TokenKind {
    fn from(literal: Literal) -> (r: TokenKind)
        ensures
            r == TokenKind::Literal(literal),
    {
        TokenKind::Literal(literal)
    }
}

impl vstd::std_specs::convert::FromSpecImpl<Literal> for TokenKind {
    open spec fn obeys_from_spec() -> bool {
        true
    }

    open spec fn from_spec(literal: Literal) -> TokenKind {
        TokenKind::Literal(literal)
    }
}

impl From<Keyword> for TokenKind {
    fn from(keyword: Keyword) -> (r: TokenKind)
        ensures
            r == TokenKind::Keyword(keyword),
    {
        TokenKind::Keyword(keyword)
    }
}

impl vstd::std_specs::convert::FromSpecImpl<Keyword> for TokenKind {
    open spec fn obeys_from_spec() -> bool {
        true
    }

    open spec fn from_spec(keyword: Keyword) -> TokenKind {
        TokenKind::Keyword(keyword)
    }
}

} // verus!
