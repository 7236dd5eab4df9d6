use vstd::prelude::*;
use super::ast::{unary_of, Cmp, Decl, Expr, Node, Operator, UnaryOp};
use super::error::{ExpectedToken, ParserError, ParsingError};
use super::grammar::{
    binary_op, expected_at, kind_at, lemma_expr_bounds, lemma_level_bounds,
    lemma_resume_bounds, lemma_statement_bounds, lemma_unary_bounds, parse_expr, parse_fn,
    parse_let, parse_level, parse_primary, parse_program, parse_rest, parse_statement,
    parse_unary, program_of, rank, recovery_point, resume_from, tighter, Outcome, Precedence,
};
use super::scanner::Scanner;
use crate::lexer::token::{Keyword, Token, TokenKind};

verus! {

impl Precedence {
    pub fn next_tighter(&self) -> (r: Option<Precedence>)
        ensures
            r == tighter(*self),
    {
        match self {
            Precedence::Equality => Some(Precedence::Comparison),
            Precedence::Comparison => Some(Precedence::Term),
            Precedence::Term => Some(Precedence::Factor),
            Precedence::Factor => None,
        }
    }

    /// The operator of this level that `token` stands for, if any.
    pub fn operator(&self, token: &Token) -> (r: Option<Operator>)
        ensures
            r == binary_op(token.kind, *self),
    {
        match self {
            Precedence::Equality => match token.as_comparison() {
                Some(Cmp::Eq) => Some(Operator::Cmp(Cmp::Eq)),
                Some(Cmp::NotEq) => Some(Operator::Cmp(Cmp::NotEq)),
                _ => None,
            },
            Precedence::Comparison => match token.as_comparison() {
                Some(Cmp::Eq) => None,
                Some(Cmp::NotEq) => None,
                Some(c) => Some(Operator::Cmp(c)),
                None => None,
            },
            Precedence::Term => match token.as_operator() {
                Some(Operator::Plus) => Some(Operator::Plus),
                Some(Operator::Minus) => Some(Operator::Minus),
                _ => None,
            },
            Precedence::Factor => match token.as_operator() {
                Some(Operator::Asterisk) => Some(Operator::Asterisk),
                Some(Operator::Slash) => Some(Operator::Slash),
                _ => None,
            },
        }
    }
}

/// Builds statements from tokens, collecting every syntax error instead of stopping
/// at the first.
pub struct Parser {
    scanner: Scanner,
    errors: Vec<ParsingError>,
}

impl Parser {
    pub closed spec fn tokens(&self) -> Seq<Token> {
        self.scanner.items()
    }

    pub closed spec fn cursor(&self) -> int {
        self.scanner.index()
    }

    pub closed spec fn errors(&self) -> Seq<ParsingError> {
        self.errors@
    }

    pub open spec fn wf(&self) -> bool {
        0 <= self.cursor() <= self.tokens().len()
    }

    /// `after` is this parser once a step with outcome `o` returned `r`.
    pub open spec fn follows<T>(&self, after: &Parser, o: Outcome<T>, r: Result<T, ParsingError>) -> bool {
        &&& after.wf()
        &&& after.tokens() == self.tokens()
        &&& after.cursor() == o.end
        &&& after.errors() == self.errors() + o.recorded
        &&& r == o.result
    }

    pub fn new(tokens: Vec<Token>) -> (r: Parser)
        ensures
            r.wf(),
            r.tokens() == tokens@,
            r.cursor() == 0,
            r.errors() == Seq::<ParsingError>::empty(),
    {
        Parser { scanner: Scanner::new(tokens), errors: Vec::new() }
    }

    /// Parses statements until the tokens run out. On a failed statement, records
    /// its error and resumes at the next statement boundary.
    pub fn parse(self) -> (r: Result<Vec<Node>, ParserError>)
        requires
            self.wf(),
            self.cursor() == 0,
            self.errors() == Seq::<ParsingError>::empty(),
        ensures
            ({
                let (nodes, errors) = program_of(self.tokens());
                match r {
                    Ok(statements) => errors.len() == 0 && statements@ == nodes,
                    Err(e) => errors.len() > 0 && e.errors@ == errors && e.recovered@ == nodes,
                }
            }),
    {
        let ghost toks = self.tokens();
        let mut parser = self;
        let mut statements: Vec<Node> = Vec::new();
        while !parser.scanner.is_eof()
            invariant
                parser.wf(),
                parser.tokens() == toks,
                program_of(toks) == ({
                    let rest = parse_program(toks, parser.cursor());
                    (statements@ + rest.0, parser.errors() + rest.1)
                }),
            decreases toks.len() - parser.cursor(),
        {
            let ghost i = parser.cursor();
            let ghost before = (statements@, parser.errors());
            proof {
                lemma_statement_bounds(toks, i);
            }
            let ghost st = parse_statement(toks, i);
            match parser.statement() {
                Ok(node) => {
                    statements.push(node);
                    proof {
                        let rest = parse_program(toks, st.end);
                        assert(before.0 + (seq![node] + rest.0) =~= statements@ + rest.0);
                        assert(before.1 + (st.recorded + rest.1) =~= parser.errors() + rest.1);
                    }
                },
                Err(e) => {
                    parser.errors.push(e);
                    proof {
                        lemma_resume_bounds(toks, if st.end < toks.len() { st.end + 1 } else { st.end });
                    }
                    parser.synchronize();
                    proof {
                        let rest = parse_program(toks, parser.cursor());
                        assert(before.1 + (st.recorded.push(e) + rest.1) =~= parser.errors() + rest.1);
                    }
                },
            }
        }
        proof {
            assert(statements@ + Seq::<Node>::empty() =~= statements@);
            assert(parser.errors() + Seq::<ParsingError>::empty() =~= parser.errors());
        }
        if parser.errors.len() == 0 {
            Ok(statements)
        } else {
            Err(ParserError::new(parser.errors, statements))
        }
    }

    /// The kind of the token under the cursor.
    fn current_kind(&self) -> (r: Option<&TokenKind>)
        requires
            self.wf(),
        ensures
            match r {
                Some(k) => kind_at(self.tokens(), self.cursor()) == Some(*k),
                None => kind_at(self.tokens(), self.cursor()) is None,
            },
    {
        match self.scanner.peek() {
            Some(t) => Some(t.kind()),
            None => None,
        }
    }

    /// The error for the token under the cursor not being the one expected.
    fn expected_here(&self, expected: ExpectedToken) -> (r: ParsingError)
        requires
            self.wf(),
        ensures
            r == expected_at(self.tokens(), self.cursor(), expected),
    {
        match self.scanner.peek() {
            Some(t) => ParsingError::ExpectedToken(expected, Some((t.start, t.end))),
            None => ParsingError::ExpectedToken(expected, None),
        }
    }

    fn statement(&mut self) -> (r: Result<Node, ParsingError>)
        requires
            old(self).wf(),
        ensures
            old(self).follows(final(self), parse_statement(old(self).tokens(), old(self).cursor()), r),
    {
        let keyword = match self.scanner.peek() {
            Some(t) => t.as_keyword(),
            None => None,
        };
        match keyword {
            Some(Keyword::Let) => match self.let_decl() {
                Ok(d) => Ok(Node::Decl(d)),
                Err(e) => Err(e),
            },
            Some(Keyword::Fn) => match self.fn_decl() {
                Ok(d) => Ok(Node::Decl(d)),
                Err(e) => Err(e),
            },
            _ => match self.expression() {
                Ok(e) => Ok(Node::Expr(e)),
                Err(x) => Err(x),
            },
        }
    }

    fn let_decl(&mut self) -> (r: Result<Decl, ParsingError>)
        requires
            old(self).wf(),
            kind_at(old(self).tokens(), old(self).cursor()) == Some(TokenKind::Keyword(Keyword::Let)),
        ensures
            old(self).follows(final(self), parse_let(old(self).tokens(), old(self).cursor()), r),
    {
        self.scanner.increment_cursor();
        let identifier = match self.scanner.peek() {
            Some(t) => t.as_identifier(),
            None => None,
        };
        let identifier = match identifier {
            Some(name) => name,
            None => return Err(self.expected_here(ExpectedToken::Identifier)),
        };
        self.scanner.increment_cursor();
        let is_equals = |t: &Token| -> (b: bool)
            ensures
                b == (t.kind == TokenKind::Eq),
            { matches!(t.kind, TokenKind::Eq) };
        if self.scanner.next_if(is_equals).is_none() {
            return Err(self.expected_here(ExpectedToken::Equals));
        }
        match self.expression() {
            Ok(expression) => Ok(Decl::Let { identifier, expression }),
            Err(e) => Err(e),
        }
    }

    fn fn_decl(&mut self) -> (r: Result<Decl, ParsingError>)
        requires
            old(self).wf(),
            kind_at(old(self).tokens(), old(self).cursor()) == Some(TokenKind::Keyword(Keyword::Fn)),
        ensures
            old(self).follows(final(self), parse_fn(old(self).tokens(), old(self).cursor()), r),
    {
        self.scanner.increment_cursor();
        let identifier = match self.scanner.peek() {
            Some(t) => t.as_identifier(),
            None => None,
        };
        let identifier = match identifier {
            Some(name) => name,
            None => return Err(self.expected_here(ExpectedToken::Identifier)),
        };
        self.scanner.increment_cursor();
        if !matches!(self.current_kind(), Some(TokenKind::OpenParen)) {
            return Err(self.expected_here(ExpectedToken::OpenParen));
        }
        self.scanner.increment_cursor();
        if !matches!(self.current_kind(), Some(TokenKind::CloseParen)) {
            return Err(self.expected_here(ExpectedToken::ClosingParen));
        }
        self.scanner.increment_cursor();
        if !matches!(self.current_kind(), Some(TokenKind::OpenBrace)) {
            return Err(self.expected_here(ExpectedToken::OpenBrace));
        }
        self.scanner.increment_cursor();
        if !matches!(self.current_kind(), Some(TokenKind::CloseBrace)) {
            return Err(self.expected_here(ExpectedToken::CloseBrace));
        }
        self.scanner.increment_cursor();
        Ok(Decl::Fn { identifier })
    }

    fn expression(&mut self) -> (r: Result<Expr, ParsingError>)
        requires
            old(self).wf(),
        ensures
            old(self).follows(final(self), parse_expr(old(self).tokens(), old(self).cursor()), r),
        decreases old(self).tokens().len() - old(self).cursor(), 6int,
    {
        self.binary(Precedence::Equality)
    }

    /// Parses one level of binary operators by precedence climbing: an operand of
    /// the next tighter level, then (operator, operand) pairs folded to the left.
    fn binary(&mut self, p: Precedence) -> (r: Result<Expr, ParsingError>)
        requires
            old(self).wf(),
        ensures
            old(self).follows(final(self), parse_level(old(self).tokens(), old(self).cursor(), p), r),
        decreases old(self).tokens().len() - old(self).cursor(), rank(p),
    {
        let ghost toks = self.tokens();
        let ghost i = self.cursor();
        let ghost errors0 = self.errors();
        let ghost goal = parse_level(toks, i, p);
        proof {
            lemma_level_bounds(toks, i, p);
            match tighter(p) {
                Some(q) => lemma_level_bounds(toks, i, q),
                None => lemma_unary_bounds(toks, i),
            }
        }
        let first = match p.next_tighter() {
            Some(q) => self.binary(q),
            None => self.unary(),
        };
        let mut lhs = match first {
            Ok(e) => e,
            Err(x) => return Err(x),
        };
        proof {
            assert(self.errors() + parse_rest(toks, self.cursor(), p, lhs).recorded =~= errors0
                + goal.recorded);
        }
        loop
            invariant
                self.wf(),
                self.tokens() == toks,
                0 <= i < self.cursor() <= toks.len(),
                i == old(self).cursor(),
                toks == old(self).tokens(),
                errors0 == old(self).errors(),
                goal == parse_level(toks, i, p),
                ({
                    let pr = parse_rest(toks, self.cursor(), p, lhs);
                    &&& goal.result == pr.result
                    &&& goal.end == pr.end
                    &&& errors0 + goal.recorded == self.errors() + pr.recorded
                }),
            ensures
                self.wf(),
                self.tokens() == toks,
                goal.result == Ok::<Expr, ParsingError>(lhs),
                goal.end == self.cursor(),
                errors0 + goal.recorded == self.errors(),
            decreases toks.len() - self.cursor(),
        {
            let ghost j = self.cursor();
            let op = match self.scanner.peek() {
                Some(t) => p.operator(t),
                None => None,
            };
            let op = match op {
                Some(op) => op,
                None => {
                    assert(self.errors() + Seq::<ParsingError>::empty() =~= self.errors());
                    break;
                },
            };
            self.scanner.increment_cursor();
            proof {
                match tighter(p) {
                    Some(q) => lemma_level_bounds(toks, j + 1, q),
                    None => lemma_unary_bounds(toks, j + 1),
                }
            }
            let ghost errors1 = self.errors();
            let rhs = match p.next_tighter() {
                Some(q) => self.binary(q),
                None => self.unary(),
            };
            match rhs {
                Ok(r) => {
                    let ghost old_lhs = lhs;
                    lhs = Expr::Binary { op, lhs: Box::new(lhs), rhs: Box::new(r) };
                    proof {
                        let more = parse_rest(toks, self.cursor(), p, lhs);
                        let rhs_o = match tighter(p) {
                            Some(q) => parse_level(toks, j + 1, q),
                            None => parse_unary(toks, j + 1),
                        };
                        assert(errors1 + (rhs_o.recorded + more.recorded) =~= self.errors()
                            + more.recorded);
                    }
                },
                Err(x) => {
                    return Err(x);
                },
            }
        }
        Ok(lhs)
    }

    fn unary(&mut self) -> (r: Result<Expr, ParsingError>)
        requires
            old(self).wf(),
        ensures
            old(self).follows(final(self), parse_unary(old(self).tokens(), old(self).cursor()), r),
        decreases old(self).tokens().len() - old(self).cursor(), 1int,
    {
        let unary_op = |t: &Token| -> (r: Option<UnaryOp>)
            ensures
                r == unary_of(t.kind),
            { UnaryOp::from(t) };
        match self.scanner.next_if_map(unary_op) {
            Some(op) => match self.unary() {
                Ok(e) => Ok(Expr::Unary { op, expr: Box::new(e) }),
                Err(x) => Err(x),
            },
            None => self.primary(),
        }
    }

    fn primary(&mut self) -> (r: Result<Expr, ParsingError>)
        requires
            old(self).wf(),
        ensures
            old(self).follows(final(self), parse_primary(old(self).tokens(), old(self).cursor()), r),
        decreases old(self).tokens().len() - old(self).cursor(), 0int,
    {
        let ghost toks = self.tokens();
        let ghost i = self.cursor();
        let (literal, is_open) = match self.scanner.peek() {
            Some(t) => (t.as_literal_expr(), matches!(t.kind, TokenKind::OpenParen)),
            None => (None, false),
        };
        if let Some(expr) = literal {
            self.scanner.increment_cursor();
            assert(self.errors() =~= old(self).errors() + Seq::<ParsingError>::empty());
            return Ok(expr);
        }
        if !is_open {
            let e = self.expected_here(ExpectedToken::Expression);
            assert(self.errors() =~= old(self).errors() + Seq::<ParsingError>::empty());
            return Err(e);
        }
        let closes_at_once = match self.scanner.peek_next() {
            Some(t) => matches!(t.kind, TokenKind::CloseParen),
            None => false,
        };
        self.scanner.increment_cursor();
        if closes_at_once {
            self.scanner.increment_cursor();
            assert(self.errors() =~= old(self).errors() + Seq::<ParsingError>::empty());
            return Ok(Expr::Unit);
        }
        proof {
            lemma_expr_bounds(toks, i + 1);
        }
        match self.expression() {
            Ok(e) => {
                if matches!(self.current_kind(), Some(TokenKind::CloseParen)) {
                    self.scanner.increment_cursor();
                } else {
                    let missing = self.expected_here(ExpectedToken::ClosingParen);
                    let ghost inner = parse_expr(toks, i + 1);
                    self.errors.push(missing);
                    assert(self.errors() =~= old(self).errors() + inner.recorded.push(missing));
                }
                Ok(e)
            },
            Err(x) => Err(x),
        }
    }

    /// Moves past the token where a statement failed, then on while the token
    /// consumed last is not `;` and the current one does not start a declaration.
    fn synchronize(&mut self)
        requires
            old(self).wf(),
        ensures
            final(self).wf(),
            final(self).tokens() == old(self).tokens(),
            final(self).errors() == old(self).errors(),
            final(self).cursor() == recovery_point(old(self).tokens(), old(self).cursor()),
    {
        let ghost toks = self.tokens();
        let ghost target = recovery_point(toks, self.cursor());
        self.scanner.increment_cursor();
        loop
            invariant
                self.wf(),
                self.tokens() == toks,
                self.errors() == old(self).errors(),
                resume_from(toks, self.cursor()) == target,
            ensures
                self.wf(),
                self.tokens() == toks,
                self.errors() == old(self).errors(),
                self.cursor() == target,
            decreases toks.len() - self.cursor(),
        {
            let at_boundary = match self.scanner.peek_prev() {
                Some(prev) => matches!(prev.kind, TokenKind::Semicolon),
                None => true,
            };
            if at_boundary {
                break;
            }
            let at_keyword = match self.scanner.peek() {
                Some(current) => matches!(current.kind, TokenKind::Keyword(_)),
                None => true,
            };
            if at_keyword {
                break;
            }
            self.scanner.increment_cursor();
        }
    }
}

} // verus!
