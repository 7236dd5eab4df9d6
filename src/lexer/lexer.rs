use vstd::prelude::*;
use super::error::{LexerError, LexingError};
use super::source::{
    comments_closed, is_ascii_digit, is_digit, is_whitespace, lemma_position_bounds,
    lemma_position_prefix, lemma_run_end_prefix, lemma_skip_trivia_prefix, lemma_run_end_bounds, lemma_run_end_unique,
    lemma_skip_trivia_bounds, location_at, run_end, skip_trivia, Source,
};
use super::token::{
    SourceLocation, bool_of, keyword_of, symbol_of, with_equals, KindView, Keyword, Literal, LiteralView, Token,
    TokenKind, TokenView,
};

verus! {

/// A letter or `_`: the characters that may start a word.
pub open spec fn is_ident_start(c: char) -> bool {
    ('a' <= c && c <= 'z') || ('A' <= c && c <= 'Z') || c == '_'
}

/// The characters that may continue a word.
pub open spec fn is_ident_char(c: char) -> bool {
    is_ident_start(c) || is_digit(c)
}

pub open spec fn digit_class() -> spec_fn(char) -> bool {
    |c: char| is_digit(c)
}

pub open spec fn ident_class() -> spec_fn(char) -> bool {
    |c: char| is_ident_char(c)
}

pub open spec fn string_body_class() -> spec_fn(char) -> bool {
    |c: char| c != '"'
}

pub open spec fn digit_value(c: char) -> int {
    (c as u32) as int - ('0' as u32) as int
}

/// The whole number that a run of decimal digits denotes.
pub open spec fn digits_value(d: Seq<char>) -> int
    decreases d.len(),
{
    if d.len() == 0 {
        0
    } else {
        digits_value(d.drop_last()) * 10 + digit_value(d.last())
    }
}

/// The kind of a word: a boolean literal, a keyword, or else an identifier.
pub open spec fn word_kind(w: Seq<char>) -> KindView {
    match bool_of(w) {
        Some(b) => KindView::Literal(LiteralView::Bool(b)),
        None => match keyword_of(w) {
            Some(k) => KindView::Keyword(k),
            None => KindView::Identifier(w),
        },
    }
}

/// The outcome of reading one lexeme that starts at a given index.
pub enum LexStep {
    /// The input is exhausted.
    End,
    /// A token of this kind, ending at this index.
    Token(KindView, int),
    /// An error, with the index at which scanning stopped.
    Fail(LexingError, int),
}

/// Reads the lexeme that starts at index `j` of `s`.
pub open spec fn step_at(s: Seq<char>, j: int) -> LexStep {
    if j < 0 || j >= s.len() {
        LexStep::End
    } else {
        let c = s[j];
        if symbol_of(c) is Some {
            let k = symbol_of(c)->0;
            if with_equals(k) is Some && j + 1 < s.len() && s[j + 1] == '=' {
                LexStep::Token(KindView::Symbol(with_equals(k)->0), j + 2)
            } else {
                LexStep::Token(KindView::Symbol(k), j + 1)
            }
        } else if c == '"' {
            let e = run_end(s, j + 1, string_body_class());
            if e < s.len() {
                LexStep::Token(KindView::Literal(LiteralView::Str(s.subrange(j + 1, e))), e + 1)
            } else {
                LexStep::Fail(LexingError::UnterminatedString, e)
            }
        } else if is_digit(c) {
            let e = run_end(s, j, digit_class());
            let v = digits_value(s.subrange(j, e));
            if v <= i32::MAX {
                LexStep::Token(KindView::Literal(LiteralView::Int(v as i32)), e)
            } else {
                LexStep::Fail(LexingError::IntegerOverflow, e)
            }
        } else if is_ident_start(c) {
            let e = run_end(s, j, ident_class());
            LexStep::Token(word_kind(s.subrange(j, e)), e)
        } else {
            LexStep::Fail(LexingError::UnknownLexme(c), j + 1)
        }
    }
}

/// The tokens of `s` from index `i` on, or the first lexical error.
pub open spec fn lex_from(s: Seq<char>, i: int) -> Result<Seq<TokenView>, LexerError>
    decreases s.len() - i,
{
    let j = skip_trivia(s, i);
    match step_at(s, j) {
        LexStep::End => Ok(Seq::empty()),
        LexStep::Token(k, e) => {
            if i < e <= s.len() {
                let t = TokenView { kind: k, start: location_at(s, j), end: location_at(s, e) };
                match lex_from(s, e) {
                    Ok(rest) => Ok(seq![t] + rest),
                    Err(x) => Err(x),
                }
            } else {
                Ok(Seq::empty())
            }
        },
        LexStep::Fail(err, e) => Err(
            LexerError { error: err, start: location_at(s, j), end: location_at(s, e) },
        ),
    }
}

/// The tokens of the whole text `s`, or the first lexical error.
pub open spec fn lex(s: Seq<char>) -> Result<Seq<TokenView>, LexerError> {
    lex_from(s, 0)
}

pub open spec fn token_views(ts: Seq<Token>) -> Seq<TokenView> {
    ts.map_values(|t: Token| t@)
}

/// Every token ends after the index where it starts.
pub proof fn lemma_step_advances(s: Seq<char>, j: int)
    requires
        0 <= j <= s.len(),
    ensures
        match step_at(s, j) {
            LexStep::End => j == s.len(),
            LexStep::Token(_, e) => j < e <= s.len(),
            LexStep::Fail(_, e) => j < e <= s.len(),
        },
{
    if j < s.len() {
        lemma_run_end_bounds(s, j + 1, string_body_class());
        lemma_run_end_bounds(s, j, digit_class());
        lemma_run_end_bounds(s, j, ident_class());
        if is_digit(s[j]) {
            assert(digit_class()(s[j]));
        }
        if is_ident_start(s[j]) {
            assert(ident_class()(s[j]));
        }
    }
}

/// A character that starts no token: no punctuation, quote, digit or word.
pub open spec fn starts_nothing(c: char) -> bool {
    symbol_of(c) is None && c != '"' && !is_digit(c) && !is_ident_start(c)
}

/// Where tokenizing meets, at the start of a lexeme, a character that starts no
/// token, it stops with `UnknownLexme` of that character, and the error covers
/// exactly that character: one column on its line.
pub proof fn lemma_unknown_character(s: Seq<char>, i: int)
    requires
        0 <= i <= s.len(),
        s.len() < usize::MAX,
        skip_trivia(s, i) < s.len(),
        starts_nothing(s[skip_trivia(s, i)]),
    ensures
        ({
            let j = skip_trivia(s, i);
            &&& lex_from(s, i) == Err::<Seq<TokenView>, LexerError>(
                LexerError {
                    error: LexingError::UnknownLexme(s[j]),
                    start: location_at(s, j),
                    end: location_at(s, j + 1),
                },
            )
            &&& location_at(s, j + 1).line == location_at(s, j).line
            &&& location_at(s, j + 1).column == location_at(s, j).column + 1
        }),
{
    let j = skip_trivia(s, i);
    lemma_skip_trivia_bounds(s, i);
    lemma_position_bounds(s, j);
    lemma_position_bounds(s, j + 1);
}

/// Where tokenizing meets an opening quote with no closing quote after it, it stops
/// with `UnterminatedString`, covering the text from the opening quote to the end
/// of input.
pub proof fn lemma_unterminated_string(s: Seq<char>, i: int)
    requires
        0 <= i <= s.len(),
        skip_trivia(s, i) < s.len(),
        s[skip_trivia(s, i)] == '"',
        forall|k: int| skip_trivia(s, i) < k < s.len() ==> s[k] != '"',
    ensures
        lex_from(s, i) == Err::<Seq<TokenView>, LexerError>(
            LexerError {
                error: LexingError::UnterminatedString,
                start: location_at(s, skip_trivia(s, i)),
                end: location_at(s, s.len() as int),
            },
        ),
{
    let j = skip_trivia(s, i);
    lemma_skip_trivia_bounds(s, i);
    lemma_run_end_unique(s, j + 1, s.len() as int, string_body_class());
}

/// Tokenizing `a` from `i` on succeeds, and no line comment runs to the end of `a`.
pub open spec fn lexes_clean(a: Seq<char>, i: int) -> bool
    decreases a.len() - i,
{
    comments_closed(a, i) && match step_at(a, skip_trivia(a, i)) {
        LexStep::End => true,
        LexStep::Token(_, e) => if i < e <= a.len() {
            lexes_clean(a, e)
        } else {
            false
        },
        LexStep::Fail(_, _) => false,
    }
}

/// A character that can neither continue a lexeme nor be skipped as trivia.
pub open spec fn ends_lexeme(c: char) -> bool {
    !is_whitespace(c) && !is_ident_char(c) && c != '=' && c != '/'
}

/// A token read inside `a` is read the same way when text follows `a` that cannot
/// continue it.
proof fn lemma_step_prefix(a: Seq<char>, x: Seq<char>, j: int)
    requires
        0 <= j < a.len(),
        x.len() > 0,
        ends_lexeme(x[0]),
        step_at(a, j) is Token,
    ensures
        step_at(a + x, j) == step_at(a, j),
{
    let s = a + x;
    let c = a[j];
    assert(s[j] == c);
    if symbol_of(c) is Some {
        if j + 1 < a.len() {
            assert(s[j + 1] == a[j + 1]);
        } else {
            assert(s[j + 1] == x[0]);
        }
    } else if c == '"' {
        lemma_run_end_bounds(a, j + 1, string_body_class());
        lemma_run_end_prefix(a, x, j + 1, string_body_class());
        assert(s.subrange(j + 1, run_end(a, j + 1, string_body_class())) =~= a.subrange(
            j + 1,
            run_end(a, j + 1, string_body_class()),
        ));
    } else if is_digit(c) {
        lemma_run_end_bounds(a, j, digit_class());
        lemma_run_end_prefix(a, x, j, digit_class());
        assert(s.subrange(j, run_end(a, j, digit_class())) =~= a.subrange(
            j,
            run_end(a, j, digit_class()),
        ));
    } else if is_ident_start(c) {
        lemma_run_end_bounds(a, j, ident_class());
        lemma_run_end_prefix(a, x, j, ident_class());
        assert(s.subrange(j, run_end(a, j, ident_class())) =~= a.subrange(
            j,
            run_end(a, j, ident_class()),
        ));
    }
}

/// Tokenizing `a + x` yields the tokens of `a` followed by what tokenizing meets from
/// the end of `a` on, where `a` lexes cleanly and `x` starts with a character that
/// cannot continue a lexeme of `a`.
pub proof fn lemma_lex_prefix(a: Seq<char>, x: Seq<char>, i: int)
    requires
        0 <= i <= a.len(),
        x.len() > 0,
        ends_lexeme(x[0]),
        lexes_clean(a, i),
    ensures
        lex_from(a, i) is Ok,
        lex_from(a + x, i) == (match lex_from(a + x, a.len() as int) {
            Ok(rest) => Ok(lex_from(a, i)->Ok_0 + rest),
            Err(e) => Err::<Seq<TokenView>, LexerError>(e),
        }),
    decreases a.len() - i,
{
    let s = a + x;
    let n = a.len() as int;
    let j = skip_trivia(a, i);
    lemma_skip_trivia_bounds(a, i);
    lemma_skip_trivia_prefix(a, x, i);
    lemma_skip_trivia_bounds(s, n);
    lemma_step_advances(a, j);
    assert(s[n] == x[0]);
    assert(skip_trivia(s, n) == n);
    if j == n {
        lemma_step_advances(s, n);
        assert(Seq::<TokenView>::empty() + seq![] =~= Seq::<TokenView>::empty());
        match lex_from(s, n) {
            Ok(rest) => {
                assert(Seq::<TokenView>::empty() + rest =~= rest);
            },
            Err(_) => {},
        }
    } else {
        match step_at(a, j) {
            LexStep::Token(k, e) => {
                lemma_step_prefix(a, x, j);
                lemma_lex_prefix(a, x, e);
                lemma_position_prefix(a, x, j);
                lemma_position_prefix(a, x, e);
                let tv = TokenView { kind: k, start: location_at(a, j), end: location_at(a, e) };
                match lex_from(s, n) {
                    Ok(rest) => {
                        assert(seq![tv] + (lex_from(a, e)->Ok_0 + rest) =~= (seq![tv] + lex_from(
                            a,
                            e,
                        )->Ok_0) + rest);
                    },
                    Err(_) => {},
                }
            },
            _ => {},
        }
    }
}

/// An opening quote with no closing quote after it, met once `a` is tokenized,
/// stops tokenizing with `UnterminatedString`, from the quote to the end of input.
pub proof fn lemma_unterminated_after(a: Seq<char>, b: Seq<char>)
    requires
        lexes_clean(a, 0),
        forall|k: int| 0 <= k < b.len() ==> b[k] != '"',
    ensures
        ({
            let s = a + seq!['"'] + b;
            lex(s) == Err::<Seq<TokenView>, LexerError>(
                LexerError {
                    error: LexingError::UnterminatedString,
                    start: location_at(a, a.len() as int),
                    end: location_at(s, s.len() as int),
                },
            )
        }),
{
    let x = seq!['"'] + b;
    let s = a + seq!['"'] + b;
    assert(s =~= a + x);
    let n = a.len() as int;
    lemma_lex_prefix(a, x, 0);
    lemma_position_prefix(a, x, n);
    assert(s[n] == '"');
    assert(skip_trivia(s, n) == n);
    lemma_unterminated_string(s, n);
}

/// A character that starts no token, met once `a` is tokenized, stops tokenizing
/// with `UnknownLexme` of that character, covering one column right after `a`.
pub proof fn lemma_unknown_after(a: Seq<char>, c: char, b: Seq<char>)
    requires
        lexes_clean(a, 0),
        starts_nothing(c),
        !is_whitespace(c),
        a.len() + 1 + b.len() < usize::MAX,
    ensures
        ({
            let s = a + seq![c] + b;
            let start = location_at(a, a.len() as int);
            &&& lex(s) == Err::<Seq<TokenView>, LexerError>(
                LexerError {
                    error: LexingError::UnknownLexme(c),
                    start,
                    end: SourceLocation { line: start.line, column: (start.column + 1) as usize },
                },
            )
        }),
{
    let x = seq![c] + b;
    let s = a + seq![c] + b;
    assert(s =~= a + x);
    let n = a.len() as int;
    assert(x[0] == c);
    lemma_lex_prefix(a, x, 0);
    lemma_position_prefix(a, x, n);
    assert(s[n] == c);
    lemma_skip_trivia_bounds(s, n);
    assert(skip_trivia(s, n) == n);
    lemma_unknown_character(s, n);
}

pub fn is_start_of_identifier(c: char) -> (r: bool)
    ensures
        r == is_ident_start(c),
{
    ('a' <= c && c <= 'z') || ('A' <= c && c <= 'Z') || c == '_'
}

pub fn is_identifier(c: char) -> (r: bool)
    ensures
        r == is_ident_char(c),
{
    is_start_of_identifier(c) || is_ascii_digit(c)
}

/// Appending a digit multiplies the value so far by ten and adds the digit.
proof fn lemma_digits_push(d: Seq<char>, c: char)
    ensures
        digits_value(d.push(c)) == digits_value(d) * 10 + digit_value(c),
{
    assert(d.push(c).drop_last() =~= d);
}

/// Turns source text into tokens, one lexeme at a time.
pub struct Lexer {
    source: Source,
}

impl Lexer {
    pub closed spec fn text(&self) -> Seq<char> {
        self.source.text()
    }

    pub closed spec fn wf(&self) -> bool {
        self.source.wf() && self.source.index() == 0
    }

    pub fn new(source: &str) -> (r: Lexer)
        requires
            source@.len() < usize::MAX,
        ensures
            r.wf(),
            r.text() == source@,
    {
        Lexer { source: Source::new(source) }
    }

    /// Reads every token of the text, or stops at the first lexical error.
    pub fn tokenize(&mut self) -> (r: Result<Vec<Token>, LexerError>)
        requires
            old(self).wf(),
        ensures
            match r {
                Ok(tokens) => lex(old(self).text()) == Ok::<Seq<TokenView>, LexerError>(
                    token_views(tokens@),
                ),
                Err(e) => lex(old(self).text()) == Err::<Seq<TokenView>, LexerError>(e),
            },
    {
        let ghost s = self.source.text();
        let mut tokens: Vec<Token> = Vec::new();
        loop
            invariant
                self.source.wf(),
                self.source.text() == s,
                s == old(self).text(),
                lex(s) == (match lex_from(s, self.source.index()) {
                    Ok(rest) => Ok(token_views(tokens@) + rest),
                    Err(x) => Err(x),
                }),
            decreases s.len() - self.source.index(),
        {
            let ghost i = self.source.index();
            proof {
                lemma_skip_trivia_bounds(s, i);
                lemma_step_advances(s, skip_trivia(s, i));
            }
            match self.next_token() {
                Ok(Some(token)) => {
                    let ghost before = tokens@;
                    tokens.push(token);
                    proof {
                        let e = self.source.index();
                        assert(token_views(tokens@) =~= token_views(before).push(token@));
                        match lex_from(s, e) {
                            Ok(rest) => {
                                assert(token_views(before) + (seq![token@] + rest)
                                    =~= token_views(tokens@) + rest);
                            },
                            Err(_) => {},
                        }
                    }
                },
                Ok(None) => {
                    assert(token_views(tokens@) + Seq::<TokenView>::empty() =~= token_views(tokens@));
                    return Ok(tokens);
                },
                Err(e) => {
                    return Err(e);
                },
            }
        }
    }

    fn next_token(&mut self) -> (r: Result<Option<Token>, LexerError>)
        requires
            old(self).source.wf(),
        ensures
            final(self).source.wf(),
            final(self).source.text() == old(self).source.text(),
            ({
                let s = old(self).source.text();
                let j = skip_trivia(s, old(self).source.index());
                match step_at(s, j) {
                    LexStep::End => r == Ok::<Option<Token>, LexerError>(None)
                        && final(self).source.index() == j,
                    LexStep::Token(k, e) => r is Ok && r->Ok_0 is Some && (r->Ok_0->0)@ == (
                    TokenView { kind: k, start: location_at(s, j), end: location_at(s, e) })
                        && final(self).source.index() == e,
                    LexStep::Fail(err, e) => r == Err::<Option<Token>, LexerError>(
                        LexerError { error: err, start: location_at(s, j), end: location_at(s, e) },
                    ) && final(self).source.index() == e,
                }
            }),
    {
        self.source.advance_to_next_token();
        let start = self.source.location();
        let next_token_kind = self.next_token_kind();
        let end = self.source.location();
        match next_token_kind {
            Ok(Some(token_kind)) => Ok(Some(Token::new(token_kind, start, end))),
            Ok(None) => Ok(None),
            Err(e) => Err(LexerError::new(e, start, end)),
        }
    }

    fn next_token_kind(&mut self) -> (r: Result<Option<TokenKind>, LexingError>)
        requires
            old(self).source.wf(),
        ensures
            final(self).source.wf(),
            final(self).source.text() == old(self).source.text(),
            match step_at(old(self).source.text(), old(self).source.index()) {
                LexStep::End => r == Ok::<Option<TokenKind>, LexingError>(None)
                    && final(self).source.index() == old(self).source.index(),
                LexStep::Token(k, e) => r is Ok && r->Ok_0 is Some && (r->Ok_0->0)@ == k
                    && final(self).source.index() == e,
                LexStep::Fail(err, e) => r == Err::<Option<TokenKind>, LexingError>(err)
                    && final(self).source.index() == e,
            },
    {
        let single_char_token = self.read_single_char_token();
        if single_char_token.is_some() {
            return Ok(single_char_token);
        }
        let literal = match self.read_literal() {
            Ok(l) => l,
            Err(e) => return Err(e),
        };
        if literal.is_some() {
            return Ok(literal);
        }
        let lexme = self.read_lexme();
        if lexme.is_some() {
            return Ok(lexme);
        }
        match self.source.next() {
            Some(ch) => Err(LexingError::UnknownLexme(ch)),
            None => Ok(None),
        }
    }

    fn read_single_char_token(&mut self) -> (r: Option<TokenKind>)
        requires
            old(self).source.wf(),
        ensures
            final(self).source.wf(),
            final(self).source.text() == old(self).source.text(),
            ({
                let s = old(self).source.text();
                let j = old(self).source.index();
                if j < s.len() && symbol_of(s[j]) is Some {
                    match step_at(s, j) {
                        LexStep::Token(k, e) => r is Some && (r->0)@ == k
                            && final(self).source.index() == e,
                        _ => false,
                    }
                } else {
                    r is None && final(self).source.index() == j
                }
            }),
    {
        let ch = match self.source.peek() {
            Some(ch) => ch,
            None => return None,
        };
        let token_kind = match TokenKind::from_char(ch) {
            Some(k) => k,
            None => return None,
        };
        self.source.next();
        let is_maybe_double_char_token = match token_kind {
            TokenKind::Eq | TokenKind::GreaterThan | TokenKind::LessThan | TokenKind::Negate => true,
            _ => false,
        };
        if !is_maybe_double_char_token || self.source.peek() != Some('=') {
            return Some(token_kind);
        }
        self.source.next();
        match token_kind {
            TokenKind::Eq => Some(TokenKind::EqEq),
            TokenKind::GreaterThan => Some(TokenKind::GreaterThanEq),
            TokenKind::LessThan => Some(TokenKind::LessThanEq),
            _ => Some(TokenKind::NotEq),
        }
    }

    fn read_literal(&mut self) -> (r: Result<Option<TokenKind>, LexingError>)
        requires
            old(self).source.wf(),
        ensures
            final(self).source.wf(),
            final(self).source.text() == old(self).source.text(),
            ({
                let s = old(self).source.text();
                let j = old(self).source.index();
                if j < s.len() && (s[j] == '"' || is_digit(s[j])) {
                    match step_at(s, j) {
                        LexStep::Token(k, e) => r is Ok && r->Ok_0 is Some && (r->Ok_0->0)@ == k
                            && final(self).source.index() == e,
                        LexStep::Fail(err, e) => r == Err::<Option<TokenKind>, LexingError>(err)
                            && final(self).source.index() == e,
                        LexStep::End => false,
                    }
                } else {
                    r == Ok::<Option<TokenKind>, LexingError>(None) && final(self).source.index()
                        == j
                }
            }),
    {
        match self.read_str() {
            Ok(Some(text)) => return Ok(Some(TokenKind::Literal(Literal::String(text)))),
            Ok(None) => {},
            Err(e) => return Err(e),
        }
        match self.read_number() {
            Ok(Some(num)) => Ok(Some(TokenKind::Literal(num))),
            Ok(None) => Ok(None),
            Err(e) => Err(e),
        }
    }

    fn read_str(&mut self) -> (r: Result<Option<String>, LexingError>)
        requires
            old(self).source.wf(),
        ensures
            final(self).source.wf(),
            final(self).source.text() == old(self).source.text(),
            ({
                let s = old(self).source.text();
                let j = old(self).source.index();
                let e = run_end(s, j + 1, string_body_class());
                if j < s.len() && s[j] == '"' {
                    if e < s.len() {
                        r is Ok && r->Ok_0 is Some && (r->Ok_0->0)@ == s.subrange(j + 1, e)
                            && final(self).source.index() == e + 1
                    } else {
                        r == Err::<Option<String>, LexingError>(LexingError::UnterminatedString)
                            && final(self).source.index() == e
                    }
                } else {
                    r is Ok && r->Ok_0 is None && final(self).source.index() == j
                }
            }),
    {
        let ghost s = self.source.text();
        let ghost j = self.source.index();
        if self.source.peek() != Some('"') {
            return Ok(None);
        }
        self.source.next();
        let body = |ch: char| -> (b: bool)
            ensures
                b == (ch != '"'),
            { ch != '"' };
        let text = match self.source.take_while(body) {
            Some(text) => text,
            None => String::new(),
        };
        proof {
            lemma_run_end_unique(s, j + 1, self.source.index(), string_body_class());
            assert(s.subrange(j + 1, j + 1) =~= Seq::<char>::empty());
        }
        if self.source.peek() != Some('"') {
            return Err(LexingError::UnterminatedString);
        }
        self.source.next();
        Ok(Some(text))
    }

    fn read_number(&mut self) -> (r: Result<Option<Literal>, LexingError>)
        requires
            old(self).source.wf(),
        ensures
            final(self).source.wf(),
            final(self).source.text() == old(self).source.text(),
            ({
                let s = old(self).source.text();
                let j = old(self).source.index();
                let e = run_end(s, j, digit_class());
                let v = digits_value(s.subrange(j, e));
                if j < s.len() && is_digit(s[j]) {
                    final(self).source.index() == e && if v <= i32::MAX {
                        r == Ok::<Option<Literal>, LexingError>(Some(Literal::Int(v as i32)))
                    } else {
                        r == Err::<Option<Literal>, LexingError>(LexingError::IntegerOverflow)
                    }
                } else {
                    r == Ok::<Option<Literal>, LexingError>(None) && final(self).source.index() == j
                }
            }),
    {
        let ghost s = self.source.text();
        let ghost j = self.source.index();
        match self.source.peek() {
            Some(ch) => {
                if !is_ascii_digit(ch) {
                    return Ok(None);
                }
            },
            None => return Ok(None),
        }
        let mut value: i64 = 0;
        let mut overflow = false;
        loop
            invariant
                0 <= j < s.len() && is_digit(s[j]),
                self.source.wf(),
                self.source.text() == s,
                j <= self.source.index() <= s.len(),
                forall|k: int| j <= k < self.source.index() ==> is_digit(#[trigger] s[k]),
                !overflow ==> value == digits_value(s.subrange(j, self.source.index())),
                !overflow ==> 0 <= value <= i32::MAX,
                overflow ==> digits_value(s.subrange(j, self.source.index())) > i32::MAX,
            ensures
                self.source.wf(),
                self.source.text() == s,
                j <= self.source.index() <= s.len(),
                forall|k: int| j <= k < self.source.index() ==> is_digit(#[trigger] s[k]),
                self.source.index() < s.len() ==> !is_digit(s[self.source.index()]),
                !overflow ==> value == digits_value(s.subrange(j, self.source.index())),
                !overflow ==> 0 <= value <= i32::MAX,
                overflow ==> digits_value(s.subrange(j, self.source.index())) > i32::MAX,
            decreases s.len() - self.source.index(),
        {
            let ch = match self.source.peek() {
                Some(ch) => ch,
                None => break,
            };
            if !is_ascii_digit(ch) {
                break;
            }
            let ghost k = self.source.index();
            let digit = ((ch as u32) - ('0' as u32)) as i64;
            assert(digit == digit_value(ch));
            assert(0 <= digit <= 9);
            if !overflow {
                let next = value * 10 + digit;
                if next > i32::MAX as i64 {
                    overflow = true;
                } else {
                    value = next;
                }
            } else {
                assert(digits_value(s.subrange(j, k)) * 10 >= digits_value(s.subrange(j, k)))
                    by (nonlinear_arith)
                    requires
                        digits_value(s.subrange(j, k)) > i32::MAX,
                ;
            }
            self.source.next();
            proof {
                let d = s.subrange(j, k);
                assert(s.subrange(j, k + 1) =~= d.push(ch));
                lemma_digits_push(d, ch);
            }
        }
        proof {
            lemma_run_end_unique(s, j, self.source.index(), digit_class());
        }
        if overflow {
            Err(LexingError::IntegerOverflow)
        } else {
            Ok(Some(Literal::Int(value as i32)))
        }
    }

    fn read_lexme(&mut self) -> (r: Option<TokenKind>)
        requires
            old(self).source.wf(),
        ensures
            final(self).source.wf(),
            final(self).source.text() == old(self).source.text(),
            ({
                let s = old(self).source.text();
                let j = old(self).source.index();
                let e = run_end(s, j, ident_class());
                if j < s.len() && is_ident_start(s[j]) {
                    r is Some && (r->0)@ == word_kind(s.subrange(j, e))
                        && final(self).source.index() == e
                } else {
                    r is None && final(self).source.index() == j
                }
            }),
    {
        let ghost s = self.source.text();
        let ghost j = self.source.index();
        match self.source.peek() {
            Some(ch) => {
                if !is_start_of_identifier(ch) {
                    return None;
                }
            },
            None => return None,
        }
        let word_char = |ch: char| -> (b: bool)
            ensures
                b == is_ident_char(ch),
            { is_identifier(ch) };
        let lexme = match self.source.take_while(word_char) {
            Some(w) => w,
            None => return None,
        };
        proof {
            lemma_run_end_unique(s, j, self.source.index(), ident_class());
        }
        if let Some(literal) = Literal::as_bool(lexme.as_str()) {
            return Some(TokenKind::Literal(literal));
        }
        if let Some(keyword) = Keyword::from_str(lexme.as_str()) {
            return Some(TokenKind::Keyword(keyword));
        }
        Some(TokenKind::Identifier(lexme))
    }
}

/// Reads every token of `source`, or stops at the first lexical error.
pub fn tokenize(source: &str) -> (r: Result<Vec<Token>, LexerError>)
    requires
        source@.len() < usize::MAX,
    ensures
        match r {
            Ok(tokens) => lex(source@) == Ok::<Seq<TokenView>, LexerError>(token_views(tokens@)),
            Err(e) => lex(source@) == Err::<Seq<TokenView>, LexerError>(e),
        },
{
    let mut lexer = Lexer::new(source);
    lexer.tokenize()
}

} // verus!
