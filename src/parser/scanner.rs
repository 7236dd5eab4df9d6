use vstd::prelude::*;
use crate::lexer::token::Token;

verus! {

/// A cursor over a finished token sequence.
pub struct Scanner {
    items: Vec<Token>,
    index: usize,
}

impl Scanner {
    /// The tokens being read.
    pub closed spec fn items(&self) -> Seq<Token> {
        self.items@
    }

    /// How many tokens have been consumed.
    pub closed spec fn index(&self) -> int {
        self.index as int
    }

    pub open spec fn wf(&self) -> bool {
        0 <= self.index() <= self.items().len()
    }

    pub fn new(items: Vec<Token>) -> (r: Scanner)
        ensures
            r.wf(),
            r.items() == items@,
            r.index() == 0,
    {
        Scanner { items, index: 0 }
    }

    pub fn is_eof(&self) -> (r: bool)
        requires
            self.wf(),
        ensures
            r == (self.index() == self.items().len()),
    {
        self.index >= self.items.len()
    }

    /// The token under the cursor.
    pub fn peek(&self) -> (r: Option<&Token>)
        requires
            self.wf(),
        ensures
            match r {
                Some(t) => self.index() < self.items().len() && *t == self.items()[self.index()],
                None => self.index() == self.items().len(),
            },
    {
        if self.index < self.items.len() {
            Some(&self.items[self.index])
        } else {
            None
        }
    }

    /// The token after the one under the cursor.
    pub fn peek_next(&self) -> (r: Option<&Token>)
        requires
            self.wf(),
        ensures
            match r {
                Some(t) => self.index() + 1 < self.items().len() && *t == self.items()[self.index()
                    + 1],
                None => self.index() + 1 >= self.items().len(),
            },
    {
        if self.index < self.items.len() && self.index + 1 < self.items.len() {
            Some(&self.items[self.index + 1])
        } else {
            None
        }
    }

    /// The token consumed last.
    pub fn peek_prev(&self) -> (r: Option<&Token>)
        requires
            self.wf(),
        ensures
            match r {
                Some(t) => 0 < self.index() && *t == self.items()[self.index() - 1],
                None => self.index() == 0,
            },
    {
        if self.index > 0 {
            Some(&self.items[self.index - 1])
        } else {
            None
        }
    }

    /// Consumes and returns the token under the cursor.
    pub fn next(&mut self) -> (r: Option<&Token>)
        requires
            old(self).wf(),
        ensures
            final(self).wf(),
            final(self).items() == old(self).items(),
            match r {
                Some(t) => old(self).index() < old(self).items().len() && *t == old(self).items()[old(
                    self,
                ).index()] && final(self).index() == old(self).index() + 1,
                None => old(self).index() == old(self).items().len() && final(self).index()
                    == old(self).index(),
            },
    {
        if self.index < self.items.len() {
            self.index = self.index + 1;
            Some(&self.items[self.index - 1])
        } else {
            None
        }
    }

    /// Consumes the token under the cursor where `map` turns it into a value, and
    /// returns that value.
    pub fn next_if_map<U>(&mut self, map: impl Fn(&Token) -> Option<U>) -> (r: Option<U>)
        requires
            old(self).wf(),
            forall|t: &Token| map.requires((t,)),
        ensures
            final(self).wf(),
            final(self).items() == old(self).items(),
            if old(self).index() < old(self).items().len() {
                map.ensures((&old(self).items()[old(self).index()],), r) && final(self).index() == if r
                    is Some {
                    old(self).index() + 1
                } else {
                    old(self).index()
                }
            } else {
                r is None && final(self).index() == old(self).index()
            },
    {
        if self.index >= self.items.len() {
            return None;
        }
        let result = map(&self.items[self.index]);
        if result.is_some() {
            self.index = self.index + 1;
        }
        result
    }

    /// Consumes the token under the cursor where `condition` holds of it.
    pub fn next_if(&mut self, condition: impl Fn(&Token) -> bool) -> (r: Option<&Token>)
        requires
            old(self).wf(),
            forall|t: &Token| condition.requires((t,)),
        ensures
            final(self).wf(),
            final(self).items() == old(self).items(),
            match r {
                Some(t) => old(self).index() < old(self).items().len() && *t == old(self).items()[old(
                    self,
                ).index()] && condition.ensures((t,), true) && final(self).index() == old(
                    self,
                ).index() + 1,
                None => final(self).index() == old(self).index() && (old(self).index() < old(
                    self,
                ).items().len() ==> condition.ensures((&old(self).items()[old(self).index()],), false)),
            },
    {
        if self.index >= self.items.len() {
            return None;
        }
        if condition(&self.items[self.index]) {
            self.index = self.index + 1;
            Some(&self.items[self.index - 1])
        } else {
            None
        }
    }

    /// Moves past the token under the cursor, if any.
    pub fn increment_cursor(&mut self)
        requires
            old(self).wf(),
        ensures
            final(self).wf(),
            final(self).items() == old(self).items(),
            final(self).index() == if old(self).index() < old(self).items().len() {
                old(self).index() + 1
            } else {
                old(self).index()
            },
    {
        if self.index < self.items.len() {
            self.index = self.index + 1;
        }
    }
}

} // verus!
