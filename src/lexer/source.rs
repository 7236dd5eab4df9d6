use vstd::prelude::*;
use super::token::SourceLocation;
use vstd::std_specs::iter::IteratorSpec;

verus! {

/// Line and column reached after reading the first `n` characters of `s`,
/// starting from line 1, column 1. A newline moves to the start of the next line.
pub open spec fn position(s: Seq<char>, n: int) -> (int, int)
    decreases n,
{
    if n <= 0 {
        (1, 1)
    } else {
        let p = position(s, n - 1);
        if s[n - 1] == '\n' {
            (p.0 + 1, 1)
        } else {
            (p.0, p.1 + 1)
        }
    }
}

/// The location value for the position after `n` characters.
pub open spec fn location_at(s: Seq<char>, n: int) -> SourceLocation {
    SourceLocation { line: position(s, n).0 as usize, column: position(s, n).1 as usize }
}

/// The end of the longest run of characters from `i` on that all satisfy `p`.
pub open spec fn run_end(s: Seq<char>, i: int, p: spec_fn(char) -> bool) -> int
    decreases s.len() - i,
{
    if 0 <= i < s.len() && p(s[i]) {
        run_end(s, i + 1, p)
    } else {
        i
    }
}

/// ASCII whitespace: space, tab, line feed, form feed and carriage return.
pub open spec fn is_whitespace(c: char) -> bool {
    c == ' ' || c == '\t' || c == '\n' || c == '\x0C' || c == '\r'
}

pub open spec fn is_digit(c: char) -> bool {
    '0' <= c && c <= '9'
}

/// Index just past the next newline at or after `i`, or the end of input.
pub open spec fn past_next_newline(s: Seq<char>, i: int) -> int {
    let e = run_end(s, i, |c: char| c != '\n');
    if e < s.len() {
        e + 1
    } else {
        e
    }
}

pub open spec fn comment_starts(s: Seq<char>, i: int) -> bool {
    0 <= i && i + 1 < s.len() && s[i] == '/' && s[i + 1] == '/'
}

/// Index of the first character from `i` on that is neither whitespace nor part of
/// a line comment.
pub open spec fn skip_trivia(s: Seq<char>, i: int) -> int
    decreases s.len() - i,
{
    if 0 <= i < s.len() && is_whitespace(s[i]) {
        skip_trivia(s, i + 1)
    } else if comment_starts(s, i) && i < past_next_newline(s, i) <= s.len() {
        skip_trivia(s, past_next_newline(s, i))
    } else {
        i
    }
}

pub proof fn lemma_position_bounds(s: Seq<char>, n: int)
    requires
        0 <= n,
    ensures
        1 <= position(s, n).0 <= n + 1,
        1 <= position(s, n).1 <= n + 1,
    decreases n,
{
    if n > 0 {
        lemma_position_bounds(s, n - 1);
    }
}

pub proof fn lemma_run_end_bounds(s: Seq<char>, i: int, p: spec_fn(char) -> bool)
    requires
        0 <= i <= s.len(),
    ensures
        i <= run_end(s, i, p) <= s.len(),
        forall|j: int| i <= j < run_end(s, i, p) ==> p(#[trigger] s[j]),
        run_end(s, i, p) < s.len() ==> !p(s[run_end(s, i, p)]),
    decreases s.len() - i,
{
    if i < s.len() && p(s[i]) {
        lemma_run_end_bounds(s, i + 1, p);
    }
}

/// A run that holds throughout and stops where `p` fails (or at the end) is the
/// longest run.
pub proof fn lemma_run_end_unique(s: Seq<char>, i: int, k: int, p: spec_fn(char) -> bool)
    requires
        0 <= i <= k <= s.len(),
        forall|j: int| i <= j < k ==> p(#[trigger] s[j]),
        k < s.len() ==> !p(s[k]),
    ensures
        run_end(s, i, p) == k,
    decreases k - i,
{
    if i < k {
        lemma_run_end_unique(s, i + 1, k, p);
    }
}

pub proof fn lemma_skip_trivia_bounds(s: Seq<char>, i: int)
    requires
        0 <= i <= s.len(),
    ensures
        i <= skip_trivia(s, i) <= s.len(),
        skip_trivia(s, i) < s.len() ==> !is_whitespace(s[skip_trivia(s, i)]),
    decreases s.len() - i,
{
    if i < s.len() && is_whitespace(s[i]) {
        lemma_skip_trivia_bounds(s, i + 1);
    } else if comment_starts(s, i) {
        lemma_run_end_bounds(s, i, |c: char| c != '\n');
        lemma_skip_trivia_bounds(s, past_next_newline(s, i));
    }
}

/// Whitespace can be skipped without changing where the next token starts.
pub proof fn lemma_skip_whitespace(s: Seq<char>, a: int, b: int)
    requires
        0 <= a <= b <= s.len(),
        forall|j: int| a <= j < b ==> is_whitespace(#[trigger] s[j]),
    ensures
        skip_trivia(s, a) == skip_trivia(s, b),
    decreases b - a,
{
    if a < b {
        lemma_skip_whitespace(s, a + 1, b);
    }
}

/// No line comment met while skipping trivia from `i` on runs to the end of `s`.
pub open spec fn comments_closed(s: Seq<char>, i: int) -> bool
    decreases s.len() - i,
{
    if 0 <= i < s.len() && is_whitespace(s[i]) {
        comments_closed(s, i + 1)
    } else if comment_starts(s, i) && i < past_next_newline(s, i) <= s.len() {
        run_end(s, i, |c: char| c != '\n') < s.len() && comments_closed(s, past_next_newline(s, i))
    } else {
        true
    }
}

/// Text appended after `a` does not change the positions within `a`.
pub proof fn lemma_position_prefix(a: Seq<char>, x: Seq<char>, n: int)
    requires
        0 <= n <= a.len(),
    ensures
        position(a + x, n) == position(a, n),
    decreases n,
{
    if n > 0 {
        lemma_position_prefix(a, x, n - 1);
    }
}

/// A run that stops inside `a`, or at its end where the appended text does not
/// continue it, is the same run in the longer text.
pub proof fn lemma_run_end_prefix(a: Seq<char>, x: Seq<char>, i: int, p: spec_fn(char) -> bool)
    requires
        0 <= i <= a.len(),
        x.len() > 0,
        run_end(a, i, p) == a.len() ==> !p(x[0]),
    ensures
        run_end(a + x, i, p) == run_end(a, i, p),
    decreases a.len() - i,
{
    if i < a.len() && p(a[i]) {
        lemma_run_end_prefix(a, x, i + 1, p);
    }
}

/// Skipping trivia in `a` ends where it ends in `a` followed by text that neither is
/// whitespace nor starts with `/`, as long as no comment runs to the end of `a`.
pub proof fn lemma_skip_trivia_prefix(a: Seq<char>, x: Seq<char>, i: int)
    requires
        0 <= i <= a.len(),
        x.len() > 0,
        !is_whitespace(x[0]),
        x[0] != '/',
        comments_closed(a, i),
    ensures
        skip_trivia(a + x, i) == skip_trivia(a, i),
    decreases a.len() - i,
{
    let s = a + x;
    if i < a.len() && is_whitespace(a[i]) {
        lemma_skip_trivia_prefix(a, x, i + 1);
    } else if comment_starts(a, i) {
        lemma_run_end_bounds(a, i, |c: char| c != '\n');
        lemma_run_end_prefix(a, x, i, |c: char| c != '\n');
        lemma_skip_trivia_prefix(a, x, past_next_newline(a, i));
    }
}

pub fn is_ascii_whitespace(c: char) -> (r: bool)
    ensures
        r == is_whitespace(c),
{
    c == ' ' || c == '\t' || c == '\n' || c == '\x0C' || c == '\r'
}

pub fn is_ascii_digit(c: char) -> (r: bool)
    ensures
        r == is_digit(c),
{
    '0' <= c && c <= '9'
}

/// Relies on `String::push`: the character is appended at the end of the string.
pub assume_specification[ std::string::String::push ](s: &mut std::string::String, ch: char)
    ensures
        final(s)@ == old(s)@.push(ch),
;

/// A cursor over the characters of a source text that tracks line and column.
pub struct Source {
    chars: Vec<char>,
    index: usize,
    line_position: usize,
    column_position: usize,
}

impl Source {
    /// The characters of the text.
    pub closed spec fn text(&self) -> Seq<char> {
        self.chars@
    }

    /// How many characters have been consumed.
    pub closed spec fn index(&self) -> int {
        self.index as int
    }

    pub closed spec fn tracks_position(&self) -> bool {
        self.line_position as int == position(self.chars@, self.index as int).0
            && self.column_position as int == position(self.chars@, self.index as int).1
    }

    pub open spec fn wf(&self) -> bool {
        &&& 0 <= self.index() <= self.text().len()
        &&& self.text().len() < usize::MAX
        &&& self.tracks_position()
    }

    /// The cursor moved forward over `k` characters and nothing else changed.
    pub open spec fn moved_to(&self, after: &Source, k: int) -> bool {
        &&& after.wf()
        &&& after.text() == self.text()
        &&& after.index() == k
    }

    pub open spec fn spec_peek(&self) -> Option<char> {
        if self.index() < self.text().len() {
            Some(self.text()[self.index()])
        } else {
            None
        }
    }

    pub fn new(source: &str) -> (r: Source)
        requires
            source@.len() < usize::MAX,
        ensures
            r.wf(),
            r.text() == source@,
            r.index() == 0,
    {
        let mut chars: Vec<char> = Vec::new();
        let mut it = source.chars();
        let ghost g = it;
        loop
            invariant_except_break
                it.remaining() == source@.subrange(chars@.len() as int, source@.len() as int),
            invariant
                chars@ == source@.subrange(0, chars@.len() as int),
                chars@.len() <= source@.len(),
            ensures
                chars@ == source@,
            decreases source@.len() - chars@.len(),
        {
            match it.next() {
                Some(c) => {
                    chars.push(c);
                    assert(chars@ =~= source@.subrange(0, chars@.len() as int));
                },
                None => {
                    assert(chars@ =~= source@);
                    break;
                },
            }
        }
        Source { chars, index: 0, line_position: 1, column_position: 1 }
    }

    pub fn location(&self) -> (r: SourceLocation)
        requires
            self.wf(),
        ensures
            r == location_at(self.text(), self.index()),
    {
        SourceLocation::new(self.line_position, self.column_position)
    }

    pub fn is_eof(&self) -> (r: bool)
        requires
            self.wf(),
        ensures
            r == (self.index() == self.text().len()),
    {
        self.index >= self.chars.len()
    }

    /// Skips whitespace and line comments, so that the cursor rests where the next
    /// token starts or at the end of input.
    pub fn advance_to_next_token(&mut self)
        requires
            old(self).wf(),
        ensures
            old(self).moved_to(final(self), skip_trivia(old(self).text(), old(self).index())),
    {
        let ghost s = self.chars@;
        let ghost target = skip_trivia(s, self.index as int);
        while self.is_at_start_of_comment() || self.is_next_char_whitespace()
            invariant
                self.wf(),
                self.text() == s,
                skip_trivia(s, self.index()) == target,
            decreases s.len() - self.index(),
        {
            if self.is_at_start_of_comment() {
                let ghost k = self.index();
                proof {
                    lemma_run_end_bounds(s, k, |c: char| c != '\n');
                }
                self.advance_to_next_line();
            }
            let ghost k = self.index();
            let is_space = |ch: char| -> (r: bool)
                ensures
                    r == is_whitespace(ch),
                { is_ascii_whitespace(ch) };
            self.advance_while(is_space);
            proof {
                lemma_skip_whitespace(s, k, self.index());
            }
        }
    }

    /// Consumes the longest run of characters that satisfy `condition` and returns
    /// it, or returns `None` and consumes nothing where the first one does not.
    pub fn take_while(&mut self, condition: impl Fn(char) -> bool) -> (r: Option<String>)
        requires
            old(self).wf(),
            forall|c: char| condition.requires((c,)),
        ensures
            final(self).wf(),
            final(self).text() == old(self).text(),
            old(self).index() <= final(self).index(),
            forall|j: int|
                old(self).index() <= j < final(self).index() ==> condition.ensures(
                    (#[trigger] old(self).text()[j],),
                    true,
                ),
            final(self).index() < old(self).text().len() ==> condition.ensures(
                (old(self).text()[final(self).index()],),
                false,
            ),
            match r {
                Some(s) => s@ == old(self).text().subrange(old(self).index(), final(self).index())
                    && old(self).index() < final(self).index(),
                None => final(self).index() == old(self).index(),
            },
    {
        let start = self.index;
        let mut taken = String::new();
        loop
            invariant
                self.wf(),
                self.text() == old(self).text(),
                start == old(self).index() <= self.index(),
                forall|c: char| condition.requires((c,)),
                forall|j: int|
                    old(self).index() <= j < self.index() ==> condition.ensures(
                        (#[trigger] old(self).text()[j],),
                        true,
                    ),
                taken@ == old(self).text().subrange(start as int, self.index()),
            ensures
                self.wf(),
                self.text() == old(self).text(),
                start == old(self).index() <= self.index(),
                forall|j: int|
                    old(self).index() <= j < self.index() ==> condition.ensures(
                        (#[trigger] old(self).text()[j],),
                        true,
                    ),
                self.index() < old(self).text().len() ==> condition.ensures(
                    (old(self).text()[self.index()],),
                    false,
                ),
                taken@ == old(self).text().subrange(start as int, self.index()),
            decreases self.text().len() - self.index(),
        {
            if self.index >= self.chars.len() {
                break;
            }
            let ch = self.chars[self.index];
            if !condition(ch) {
                break;
            }
            self.increment_cursor(ch);
            assert(taken@.push(ch) =~= old(self).text().subrange(start as int, self.index()));
            taken.push(ch);
        }
        if self.index == start {
            None
        } else {
            Some(taken)
        }
    }

    /// Consumes the longest run of characters that satisfy `condition`.
    pub fn advance_while(&mut self, condition: impl Fn(char) -> bool)
        requires
            old(self).wf(),
            forall|c: char| condition.requires((c,)),
        ensures
            final(self).wf(),
            final(self).text() == old(self).text(),
            old(self).index() <= final(self).index(),
            forall|j: int|
                old(self).index() <= j < final(self).index() ==> condition.ensures(
                    (#[trigger] old(self).text()[j],),
                    true,
                ),
            final(self).index() < old(self).text().len() ==> condition.ensures(
                (old(self).text()[final(self).index()],),
                false,
            ),
    {
        loop
            invariant
                self.wf(),
                self.text() == old(self).text(),
                old(self).index() <= self.index(),
                forall|c: char| condition.requires((c,)),
                forall|j: int|
                    old(self).index() <= j < self.index() ==> condition.ensures(
                        (#[trigger] old(self).text()[j],),
                        true,
                    ),
            ensures
                self.wf(),
                self.text() == old(self).text(),
                old(self).index() <= self.index(),
                forall|j: int|
                    old(self).index() <= j < self.index() ==> condition.ensures(
                        (#[trigger] old(self).text()[j],),
                        true,
                    ),
                self.index() < old(self).text().len() ==> condition.ensures(
                    (old(self).text()[self.index()],),
                    false,
                ),
            decreases self.text().len() - self.index(),
        {
            if self.index >= self.chars.len() {
                break;
            }
            let ch = self.chars[self.index];
            if !condition(ch) {
                break;
            }
            self.increment_cursor(ch);
        }
    }

    /// Consumes everything up to and including the next `ch`, or up to the end of
    /// input where no `ch` follows.
    pub fn advance_past_next(&mut self, ch: char)
        requires
            old(self).wf(),
        ensures
            ({
                let e = run_end(old(self).text(), old(self).index(), |c: char| c != ch);
                old(self).moved_to(final(self), if e < old(self).text().len() { e + 1 } else { e })
            }),
    {
        let ghost s = self.chars@;
        let ghost i = self.index as int;
        let other = |c: char| -> (r: bool)
            ensures
                r == (c != ch),
            { c != ch };
        self.advance_while(other);
        proof {
            lemma_run_end_unique(s, i, self.index(), |c: char| c != ch);
        }
        if self.peek().is_some() {
            self.next();
        }
    }

    pub fn peek(&self) -> (r: Option<char>)
        requires
            self.wf(),
        ensures
            r == self.spec_peek(),
    {
        if self.index < self.chars.len() {
            Some(self.chars[self.index])
        } else {
            None
        }
    }

    pub fn peek_next(&self) -> (r: Option<char>)
        requires
            self.wf(),
        ensures
            r == (if self.index() + 1 < self.text().len() {
                Some(self.text()[self.index() + 1])
            } else {
                None
            }),
    {
        if self.index + 1 < self.chars.len() {
            Some(self.chars[self.index + 1])
        } else {
            None
        }
    }

    /// Consumes the next character where `condition` holds of it.
    pub fn next_if(&mut self, condition: impl Fn(char) -> bool) -> (r: Option<char>)
        requires
            old(self).wf(),
            forall|c: char| condition.requires((c,)),
        ensures
            match r {
                Some(c) => old(self).spec_peek() == Some(c) && condition.ensures((c,), true)
                    && old(self).moved_to(final(self), old(self).index() + 1),
                None => *final(self) == *old(self) && (old(self).spec_peek() is Some
                    ==> condition.ensures((old(self).spec_peek()->0,), false)),
            },
    {
        if self.index >= self.chars.len() {
            return None;
        }
        let ch = self.chars[self.index];
        if condition(ch) {
            self.increment_cursor(ch);
            Some(ch)
        } else {
            None
        }
    }

    /// Consumes the next character where `map` turns it into a value, and returns
    /// that value.
    pub fn next_map<T>(&mut self, map: impl Fn(char) -> Option<T>) -> (r: Option<T>)
        requires
            old(self).wf(),
            forall|c: char| map.requires((c,)),
        ensures
            match old(self).spec_peek() {
                Some(c) => map.ensures((c,), r) && if r is Some {
                    old(self).moved_to(final(self), old(self).index() + 1)
                } else {
                    *final(self) == *old(self)
                },
                None => r is None && *final(self) == *old(self),
            },
    {
        if self.index >= self.chars.len() {
            return None;
        }
        let ch = self.chars[self.index];
        let result = map(ch);
        if result.is_some() {
            self.increment_cursor(ch);
        }
        result
    }

    /// Consumes and returns the next character.
    pub fn next(&mut self) -> (r: Option<char>)
        requires
            old(self).wf(),
        ensures
            r == old(self).spec_peek(),
            r is Some ==> old(self).moved_to(final(self), old(self).index() + 1),
            r is None ==> *final(self) == *old(self),
    {
        if self.index >= self.chars.len() {
            return None;
        }
        let ch = self.chars[self.index];
        self.increment_cursor(ch);
        Some(ch)
    }

    fn increment_cursor(&mut self, ch: char)
        requires
            old(self).wf(),
            old(self).index() < old(self).text().len(),
            ch == old(self).text()[old(self).index()],
        ensures
            old(self).moved_to(final(self), old(self).index() + 1),
    {
        proof {
            lemma_position_bounds(self.chars@, self.index as int);
        }
        if ch == '\n' {
            self.line_position = self.line_position + 1;
            self.column_position = 1;
        } else {
            self.column_position = self.column_position + 1;
        }
        self.index = self.index + 1;
    }

    fn is_at_start_of_comment(&self) -> (r: bool)
        requires
            self.wf(),
        ensures
            r == comment_starts(self.text(), self.index()),
    {
        self.peek() == Some('/') && self.peek_next() == Some('/')
    }

    fn is_next_char_whitespace(&self) -> (r: bool)
        requires
            self.wf(),
        ensures
            r == (self.index() < self.text().len() && is_whitespace(self.text()[self.index()])),
    {
        match self.peek() {
            Some(ch) => is_ascii_whitespace(ch),
            None => false,
        }
    }

    fn advance_to_next_line(&mut self)
        requires
            old(self).wf(),
        ensures
            old(self).moved_to(final(self), past_next_newline(old(self).text(), old(self).index())),
    {
        self.advance_past_next('\n');
    }
}

} // verus!
