use vstd::prelude::*;
use super::ast::{comparison_of, literal_expr, operator_of, unary_of, Cmp, Decl, Expr, Node, Operator};
use super::error::{ExpectedToken, ParsingError};
use crate::lexer::token::{Keyword, SourceLocation, Token, TokenKind};

verus! {

/// Binding strength of the binary operators, from loosest to tightest.
#[derive(Debug, Clone, Copy, PartialEq, Eq, Structural)]
pub enum Precedence {
    Equality,
    Comparison,
    Term,
    Factor,
}

/// The next tighter level of binary operators; unary expressions lie past `Factor`.
pub open spec fn tighter(p: Precedence) -> Option<Precedence> {
    match p {
        Precedence::Equality => Some(Precedence::Comparison),
        Precedence::Comparison => Some(Precedence::Term),
        Precedence::Term => Some(Precedence::Factor),
        Precedence::Factor => None,
    }
}

pub open spec fn rank(p: Precedence) -> int {
    match p {
        Precedence::Equality => 5,
        Precedence::Comparison => 4,
        Precedence::Term => 3,
        Precedence::Factor => 2,
    }
}

/// The binary operator that a token kind stands for at a given level, if any.
pub open spec fn binary_op(k: TokenKind, p: Precedence) -> Option<Operator> {
    match p {
        Precedence::Equality => match comparison_of(k) {
            Some(Cmp::Eq) => Some(Operator::Cmp(Cmp::Eq)),
            Some(Cmp::NotEq) => Some(Operator::Cmp(Cmp::NotEq)),
            _ => None,
        },
        Precedence::Comparison => match comparison_of(k) {
            Some(Cmp::Eq) => None,
            Some(Cmp::NotEq) => None,
            Some(c) => Some(Operator::Cmp(c)),
            None => None,
        },
        Precedence::Term => match operator_of(k) {
            Some(Operator::Plus) => Some(Operator::Plus),
            Some(Operator::Minus) => Some(Operator::Minus),
            _ => None,
        },
        Precedence::Factor => match operator_of(k) {
            Some(Operator::Asterisk) => Some(Operator::Asterisk),
            Some(Operator::Slash) => Some(Operator::Slash),
            _ => None,
        },
    }
}

/// What one parsing step yields: a value or the error that stopped it, the index
/// where the cursor rests afterwards, and the recoverable errors recorded on the way.
pub struct Outcome<T> {
    pub result: Result<T, ParsingError>,
    pub end: int,
    pub recorded: Seq<ParsingError>,
}

pub open spec fn kind_at(toks: Seq<Token>, i: int) -> Option<TokenKind> {
    if 0 <= i < toks.len() {
        Some(toks[i].kind)
    } else {
        None
    }
}

pub open spec fn span_at(toks: Seq<Token>, i: int) -> Option<(SourceLocation, SourceLocation)> {
    if 0 <= i < toks.len() {
        Some((toks[i].start, toks[i].end))
    } else {
        None
    }
}

/// The error for a missing token at index `i`, located at the token found there.
pub open spec fn expected_at(toks: Seq<Token>, i: int, e: ExpectedToken) -> ParsingError {
    ParsingError::ExpectedToken(e, span_at(toks, i))
}

pub open spec fn fail_at<T>(toks: Seq<Token>, i: int, e: ExpectedToken) -> Outcome<T> {
    Outcome { result: Err(expected_at(toks, i, e)), end: i, recorded: Seq::empty() }
}

/// `expr := equality`
pub open spec fn parse_expr(toks: Seq<Token>, i: int) -> Outcome<Expr>
    decreases toks.len() - i, 6int,
{
    parse_level(toks, i, Precedence::Equality)
}

/// One level of binary operators: an operand of the next tighter level, then any
/// number of (operator, operand) pairs, folded to the left.
pub open spec fn parse_level(toks: Seq<Token>, i: int, p: Precedence) -> Outcome<Expr>
    decreases toks.len() - i, rank(p),
{
    let first = match tighter(p) {
        Some(q) => parse_level(toks, i, q),
        None => parse_unary(toks, i),
    };
    match first.result {
        Ok(lhs) => {
            if i < first.end <= toks.len() {
                let rest = parse_rest(toks, first.end, p, lhs);
                Outcome { result: rest.result, end: rest.end, recorded: first.recorded + rest.recorded }
            } else {
                first
            }
        },
        Err(_) => first,
    }
}

/// The (operator, operand) pairs of level `p` from index `j` on, folded onto `lhs`.
pub open spec fn parse_rest(toks: Seq<Token>, j: int, p: Precedence, lhs: Expr) -> Outcome<Expr>
    decreases toks.len() - j, rank(p),
{
    let done = Outcome { result: Ok(lhs), end: j, recorded: Seq::empty() };
    match kind_at(toks, j) {
        Some(k) => match binary_op(k, p) {
            Some(op) => {
                let rhs = match tighter(p) {
                    Some(q) => parse_level(toks, j + 1, q),
                    None => parse_unary(toks, j + 1),
                };
                match rhs.result {
                    Ok(r) => {
                        if j < rhs.end <= toks.len() {
                            let folded = Expr::Binary { op, lhs: Box::new(lhs), rhs: Box::new(r) };
                            let more = parse_rest(toks, rhs.end, p, folded);
                            Outcome {
                                result: more.result,
                                end: more.end,
                                recorded: rhs.recorded + more.recorded,
                            }
                        } else {
                            done
                        }
                    },
                    Err(_) => rhs,
                }
            },
            None => done,
        },
        None => done,
    }
}

/// `unary := ('-' | '!') unary | primary`
pub open spec fn parse_unary(toks: Seq<Token>, i: int) -> Outcome<Expr>
    decreases toks.len() - i, 1int,
{
    match kind_at(toks, i) {
        Some(k) => match unary_of(k) {
            Some(op) => {
                let inner = parse_unary(toks, i + 1);
                match inner.result {
                    Ok(e) => Outcome {
                        result: Ok(Expr::Unary { op, expr: Box::new(e) }),
                        end: inner.end,
                        recorded: inner.recorded,
                    },
                    Err(_) => inner,
                }
            },
            None => parse_primary(toks, i),
        },
        None => parse_primary(toks, i),
    }
}

/// `primary := literal | '(' ')' | '(' expr ')'`. A missing closing parenthesis is
/// recorded and the inner expression stands.
pub open spec fn parse_primary(toks: Seq<Token>, i: int) -> Outcome<Expr>
    decreases toks.len() - i, 0int,
{
    match kind_at(toks, i) {
        Some(TokenKind::Literal(l)) => Outcome {
            result: Ok(literal_expr(l)),
            end: i + 1,
            recorded: Seq::empty(),
        },
        Some(TokenKind::OpenParen) => {
            if kind_at(toks, i + 1) == Some(TokenKind::CloseParen) {
                Outcome { result: Ok(Expr::Unit), end: i + 2, recorded: Seq::empty() }
            } else {
                let inner = parse_expr(toks, i + 1);
                match inner.result {
                    Ok(e) => {
                        if kind_at(toks, inner.end) == Some(TokenKind::CloseParen) {
                            Outcome { result: Ok(e), end: inner.end + 1, recorded: inner.recorded }
                        } else {
                            Outcome {
                                result: Ok(e),
                                end: inner.end,
                                recorded: inner.recorded.push(
                                    expected_at(toks, inner.end, ExpectedToken::ClosingParen),
                                ),
                            }
                        }
                    },
                    Err(_) => inner,
                }
            }
        },
        _ => fail_at(toks, i, ExpectedToken::Expression),
    }
}

/// `let_decl := 'let' IDENT '=' expr`, where index `i` holds `let`.
pub open spec fn parse_let(toks: Seq<Token>, i: int) -> Outcome<Decl> {
    match kind_at(toks, i + 1) {
        Some(TokenKind::Identifier(name)) => {
            if kind_at(toks, i + 2) == Some(TokenKind::Eq) {
                let e = parse_expr(toks, i + 3);
                match e.result {
                    Ok(x) => Outcome {
                        result: Ok(Decl::Let { identifier: name, expression: x }),
                        end: e.end,
                        recorded: e.recorded,
                    },
                    Err(err) => Outcome { result: Err(err), end: e.end, recorded: e.recorded },
                }
            } else {
                fail_at(toks, i + 2, ExpectedToken::Equals)
            }
        },
        _ => fail_at(toks, i + 1, ExpectedToken::Identifier),
    }
}

/// `fn_decl := 'fn' IDENT '(' ')' '{' '}'`, where index `i` holds `fn`.
pub open spec fn parse_fn(toks: Seq<Token>, i: int) -> Outcome<Decl> {
    match kind_at(toks, i + 1) {
        Some(TokenKind::Identifier(name)) => {
            if kind_at(toks, i + 2) != Some(TokenKind::OpenParen) {
                fail_at(toks, i + 2, ExpectedToken::OpenParen)
            } else if kind_at(toks, i + 3) != Some(TokenKind::CloseParen) {
                fail_at(toks, i + 3, ExpectedToken::ClosingParen)
            } else if kind_at(toks, i + 4) != Some(TokenKind::OpenBrace) {
                fail_at(toks, i + 4, ExpectedToken::OpenBrace)
            } else if kind_at(toks, i + 5) != Some(TokenKind::CloseBrace) {
                fail_at(toks, i + 5, ExpectedToken::CloseBrace)
            } else {
                Outcome {
                    result: Ok(Decl::Fn { identifier: name }),
                    end: i + 6,
                    recorded: Seq::empty(),
                }
            }
        },
        _ => fail_at(toks, i + 1, ExpectedToken::Identifier),
    }
}

pub open spec fn as_decl_node(o: Outcome<Decl>) -> Outcome<Node> {
    Outcome {
        result: match o.result {
            Ok(d) => Ok(Node::Decl(d)),
            Err(e) => Err(e),
        },
        end: o.end,
        recorded: o.recorded,
    }
}

pub open spec fn as_expr_node(o: Outcome<Expr>) -> Outcome<Node> {
    Outcome {
        result: match o.result {
            Ok(e) => Ok(Node::Expr(e)),
            Err(x) => Err(x),
        },
        end: o.end,
        recorded: o.recorded,
    }
}

/// `statement := decl | expr`
pub open spec fn parse_statement(toks: Seq<Token>, i: int) -> Outcome<Node> {
    match kind_at(toks, i) {
        Some(TokenKind::Keyword(Keyword::Let)) => as_decl_node(parse_let(toks, i)),
        Some(TokenKind::Keyword(Keyword::Fn)) => as_decl_node(parse_fn(toks, i)),
        _ => as_expr_node(parse_expr(toks, i)),
    }
}

/// Skips tokens while the one consumed last is not `;` and the current one is not a
/// keyword.
pub open spec fn resume_from(toks: Seq<Token>, j: int) -> int
    decreases toks.len() - j,
{
    if 0 < j < toks.len() && toks[j - 1].kind != TokenKind::Semicolon && !(toks[j].kind is Keyword) {
        resume_from(toks, j + 1)
    } else {
        j
    }
}

/// Where parsing resumes after a statement failed at index `i`: past the failing
/// token, then up to the next statement boundary.
pub open spec fn recovery_point(toks: Seq<Token>, i: int) -> int {
    resume_from(toks, if i < toks.len() { i + 1 } else { i })
}

/// The statements parsed from index `i` on, and the errors met on the way, in order.
pub open spec fn parse_program(toks: Seq<Token>, i: int) -> (Seq<Node>, Seq<ParsingError>)
    decreases toks.len() - i,
{
    if i < 0 || i >= toks.len() {
        (Seq::empty(), Seq::empty())
    } else {
        let st = parse_statement(toks, i);
        match st.result {
            Ok(n) => {
                if i < st.end <= toks.len() {
                    let rest = parse_program(toks, st.end);
                    (seq![n] + rest.0, st.recorded + rest.1)
                } else {
                    (Seq::empty(), Seq::empty())
                }
            },
            Err(e) => {
                let k = recovery_point(toks, st.end);
                if i < k <= toks.len() {
                    let rest = parse_program(toks, k);
                    (rest.0, st.recorded.push(e) + rest.1)
                } else {
                    (Seq::empty(), Seq::empty())
                }
            },
        }
    }
}

/// The statements of a whole token sequence and the syntax errors in it.
pub open spec fn program_of(toks: Seq<Token>) -> (Seq<Node>, Seq<ParsingError>) {
    parse_program(toks, 0)
}

/// The cursor never moves back, never passes the end, and a step that succeeds
/// consumes at least one token.
pub open spec fn bounded<T>(toks: Seq<Token>, i: int, o: Outcome<T>) -> bool {
    &&& i <= o.end <= toks.len()
    &&& o.result is Ok ==> i < o.end
}

pub proof fn lemma_expr_bounds(toks: Seq<Token>, i: int)
    requires
        0 <= i <= toks.len(),
    ensures
        bounded(toks, i, parse_expr(toks, i)),
    decreases toks.len() - i, 6int,
{
    lemma_level_bounds(toks, i, Precedence::Equality);
}

pub proof fn lemma_level_bounds(toks: Seq<Token>, i: int, p: Precedence)
    requires
        0 <= i <= toks.len(),
    ensures
        bounded(toks, i, parse_level(toks, i, p)),
    decreases toks.len() - i, rank(p),
{
    let first = match tighter(p) {
        Some(q) => parse_level(toks, i, q),
        None => parse_unary(toks, i),
    };
    match tighter(p) {
        Some(q) => lemma_level_bounds(toks, i, q),
        None => lemma_unary_bounds(toks, i),
    }
    if let Ok(lhs) = first.result {
        lemma_rest_bounds(toks, first.end, p, lhs);
    }
}

pub proof fn lemma_rest_bounds(toks: Seq<Token>, j: int, p: Precedence, lhs: Expr)
    requires
        0 <= j <= toks.len(),
    ensures
        j <= parse_rest(toks, j, p, lhs).end <= toks.len(),
    decreases toks.len() - j, rank(p),
{
    if let Some(k) = kind_at(toks, j) {
        if let Some(op) = binary_op(k, p) {
            let rhs = match tighter(p) {
                Some(q) => parse_level(toks, j + 1, q),
                None => parse_unary(toks, j + 1),
            };
            match tighter(p) {
                Some(q) => lemma_level_bounds(toks, j + 1, q),
                None => lemma_unary_bounds(toks, j + 1),
            }
            if let Ok(r) = rhs.result {
                let folded = Expr::Binary { op, lhs: Box::new(lhs), rhs: Box::new(r) };
                lemma_rest_bounds(toks, rhs.end, p, folded);
            }
        }
    }
}

pub proof fn lemma_unary_bounds(toks: Seq<Token>, i: int)
    requires
        0 <= i <= toks.len(),
    ensures
        bounded(toks, i, parse_unary(toks, i)),
    decreases toks.len() - i, 1int,
{
    lemma_primary_bounds(toks, i);
    if let Some(k) = kind_at(toks, i) {
        if unary_of(k) is Some {
            lemma_unary_bounds(toks, i + 1);
        }
    }
}

pub proof fn lemma_primary_bounds(toks: Seq<Token>, i: int)
    requires
        0 <= i <= toks.len(),
    ensures
        bounded(toks, i, parse_primary(toks, i)),
    decreases toks.len() - i, 0int,
{
    if kind_at(toks, i) == Some(TokenKind::OpenParen) && i + 1 <= toks.len() {
        lemma_expr_bounds(toks, i + 1);
    }
}

pub proof fn lemma_statement_bounds(toks: Seq<Token>, i: int)
    requires
        0 <= i <= toks.len(),
    ensures
        bounded(toks, i, parse_statement(toks, i)),
{
    lemma_expr_bounds(toks, i);
    if kind_at(toks, i) == Some(TokenKind::Keyword(Keyword::Let)) && i + 3 <= toks.len() {
        lemma_expr_bounds(toks, i + 3);
    }
}

pub proof fn lemma_resume_bounds(toks: Seq<Token>, j: int)
    requires
        0 <= j <= toks.len(),
    ensures
        j <= resume_from(toks, j) <= toks.len(),
    decreases toks.len() - j,
{
    if 0 < j < toks.len() && toks[j - 1].kind != TokenKind::Semicolon && !(toks[j].kind is Keyword) {
        lemma_resume_bounds(toks, j + 1);
    }
}

/// A statement that fails costs only itself: its error is recorded once, after any
/// recoverable errors met inside it, and the statements and errors from the next
/// statement boundary on are exactly those parsed from there. So where nothing else
/// goes wrong, the program yields the later statements and exactly one error.
pub proof fn lemma_failed_statement_keeps_rest(toks: Seq<Token>, i: int)
    requires
        0 <= i < toks.len(),
        parse_statement(toks, i).result is Err,
    ensures
        ({
            let st = parse_statement(toks, i);
            let k = recovery_point(toks, st.end);
            let rest = parse_program(toks, k);
            &&& i < k <= toks.len()
            &&& parse_program(toks, i).0 == rest.0
            &&& parse_program(toks, i).1 == st.recorded.push(st.result->Err_0) + rest.1
            &&& (st.recorded.len() == 0 && rest.1.len() == 0) ==> parse_program(toks, i).1.len()
                == 1
        }),
{
    let st = parse_statement(toks, i);
    lemma_statement_bounds(toks, i);
    lemma_resume_bounds(toks, if st.end < toks.len() { st.end + 1 } else { st.end });
}

/// An operand of level `p`: an expression of the next tighter level.
pub open spec fn operand_at(toks: Seq<Token>, i: int, p: Precedence) -> Outcome<Expr> {
    match tighter(p) {
        Some(q) => parse_level(toks, i, q),
        None => parse_unary(toks, i),
    }
}

/// At index `j` stands operator `op` of level `p`, followed by an operand that parses
/// to `operand` without errors and ends at `end`.
pub open spec fn chain_link(
    toks: Seq<Token>,
    p: Precedence,
    j: int,
    op: Operator,
    operand: Expr,
    end: int,
) -> bool {
    &&& kind_at(toks, j) is Some
    &&& binary_op(kind_at(toks, j)->0, p) == Some(op)
    &&& operand_at(toks, j + 1, p) == Outcome {
        result: Ok(operand),
        end,
        recorded: Seq::<ParsingError>::empty(),
    }
}

/// No operator of level `p` stands at index `j`.
pub open spec fn chain_ends(toks: Seq<Token>, p: Precedence, j: int) -> bool {
    kind_at(toks, j) is None || binary_op(kind_at(toks, j)->0, p) is None
}

/// The chain `operand op operand op ... operand` of level `p` that starts at `i`:
/// operand `m` ends at `ends[m]`, where operator `ops[m]` stands, and after the last
/// operand no operator of level `p` follows.
pub open spec fn is_chain(
    toks: Seq<Token>,
    i: int,
    p: Precedence,
    first: Expr,
    ops: Seq<Operator>,
    operands: Seq<Expr>,
    ends: Seq<int>,
) -> bool {
    &&& 0 <= i <= toks.len()
    &&& ops.len() == operands.len()
    &&& ends.len() == ops.len() + 1
    &&& operand_at(toks, i, p) == Outcome {
        result: Ok(first),
        end: ends[0],
        recorded: Seq::<ParsingError>::empty(),
    }
    &&& forall|m: int|
        0 <= m < ops.len() ==> chain_link(toks, p, ends[m], #[trigger] ops[m], operands[m], ends[m + 1])
    &&& chain_ends(toks, p, ends.last())
}

/// Folds `operands` onto `lhs` from the left: each operator joins the result so far
/// with the next operand.
pub open spec fn fold_left(lhs: Expr, ops: Seq<Operator>, operands: Seq<Expr>) -> Expr
    decreases ops.len(),
{
    if ops.len() == 0 || operands.len() == 0 {
        lhs
    } else {
        fold_left(
            Expr::Binary { op: ops[0], lhs: Box::new(lhs), rhs: Box::new(operands[0]) },
            ops.drop_first(),
            operands.drop_first(),
        )
    }
}

proof fn lemma_rest_step(
    toks: Seq<Token>,
    p: Precedence,
    lhs: Expr,
    j: int,
    op: Operator,
    operand: Expr,
    end: int,
)
    requires
        0 <= j <= toks.len(),
        chain_link(toks, p, j, op, operand, end),
    ensures
        j < end <= toks.len(),
        parse_rest(toks, j, p, lhs) == ({
            let more = parse_rest(
                toks,
                end,
                p,
                Expr::Binary { op, lhs: Box::new(lhs), rhs: Box::new(operand) },
            );
            Outcome {
                result: more.result,
                end: more.end,
                recorded: Seq::<ParsingError>::empty() + more.recorded,
            }
        }),
{
    match tighter(p) {
        Some(q) => lemma_level_bounds(toks, j + 1, q),
        None => lemma_unary_bounds(toks, j + 1),
    }
}

proof fn lemma_rest_folds_left(
    toks: Seq<Token>,
    p: Precedence,
    lhs: Expr,
    ops: Seq<Operator>,
    operands: Seq<Expr>,
    ends: Seq<int>,
)
    requires
        0 <= ends[0] <= toks.len(),
        ops.len() == operands.len(),
        ends.len() == ops.len() + 1,
        forall|m: int|
            0 <= m < ops.len() ==> chain_link(toks, p, ends[m], #[trigger] ops[m], operands[m], ends[m + 1]),
        chain_ends(toks, p, ends.last()),
    ensures
        parse_rest(toks, ends[0], p, lhs) == (Outcome {
            result: Ok(fold_left(lhs, ops, operands)),
            end: ends.last(),
            recorded: Seq::<ParsingError>::empty(),
        }),
    decreases ops.len(),
{
    if ops.len() == 0 {
        assert(parse_rest(toks, ends[0], p, lhs) == (Outcome {
            result: Ok::<Expr, ParsingError>(lhs),
            end: ends[0],
            recorded: Seq::<ParsingError>::empty(),
        }));
    } else {
        assert(chain_link(toks, p, ends[0], ops[0], operands[0], ends[1]));
        lemma_rest_step(toks, p, lhs, ends[0], ops[0], operands[0], ends[1]);
        let folded = Expr::Binary { op: ops[0], lhs: Box::new(lhs), rhs: Box::new(operands[0]) };
        let ends2 = ends.drop_first();
        let ops2 = ops.drop_first();
        let operands2 = operands.drop_first();
        assert forall|m: int| 0 <= m < ops2.len() implies chain_link(
            toks,
            p,
            ends2[m],
            #[trigger] ops2[m],
            operands2[m],
            ends2[m + 1],
        ) by {
            assert(chain_link(toks, p, ends[m + 1], ops[m + 1], operands[m + 1], ends[m + 2]));
        }
        lemma_rest_folds_left(toks, p, folded, ops2, operands2, ends2);
        assert(Seq::<ParsingError>::empty() + Seq::<ParsingError>::empty() =~= Seq::<
            ParsingError,
        >::empty());
    }
}

/// Operators of one level associate to the left: a chain of operands of the next
/// tighter level joined by operators of level `p` parses as their left fold, e.g.
/// `1 - 2 - 3` as `(1 - 2) - 3`. Each operand is a whole expression of the tighter
/// level, so tighter operators bind first, e.g. `1 + 2 * 3` as `1 + (2 * 3)`.
pub proof fn lemma_level_folds_left(
    toks: Seq<Token>,
    i: int,
    p: Precedence,
    first: Expr,
    ops: Seq<Operator>,
    operands: Seq<Expr>,
    ends: Seq<int>,
)
    requires
        is_chain(toks, i, p, first, ops, operands, ends),
    ensures
        parse_level(toks, i, p) == (Outcome {
            result: Ok(fold_left(first, ops, operands)),
            end: ends.last(),
            recorded: Seq::<ParsingError>::empty(),
        }),
{
    match tighter(p) {
        Some(q) => lemma_level_bounds(toks, i, q),
        None => lemma_unary_bounds(toks, i),
    }
    lemma_rest_folds_left(toks, p, first, ops, operands, ends);
    assert(Seq::<ParsingError>::empty() + Seq::<ParsingError>::empty() =~= Seq::<ParsingError>::empty());
}

/// The levels share no operator: a token that continues one level never continues
/// another, so `*` and `/` never end a sum and `+` and `-` never continue a product.
pub proof fn lemma_levels_disjoint(k: TokenKind, p: Precedence, q: Precedence)
    requires
        p != q,
        binary_op(k, p) is Some,
    ensures
        binary_op(k, q) is None,
{
}

} // verus!
