//! The mathematical model of parsing: a recursive-descent,
//! precedence-climbing reading of the token stream. The executable parser is
//! proved to return exactly this model's answer.
//!
//! Every function takes the token sequence and a cursor and returns the
//! parse's outcome together with the cursor after it. Binary levels are
//! numbered from loosest to tightest: disjunction, conjunction, comparison,
//! additive, multiplicative.

use vstd::prelude::*;

use crate::ast::{BinaryOp, BorrowOp, Expr, Ident, Literal, UnaryOp};
use crate::lexer::Token;
use crate::span::{Span, Spanned};

verus! {

/// A parse error. Each variant carries the spans a renderer needs to point
/// back into the source.
#[derive(Debug, Clone, Copy, PartialEq)]
pub enum ParseError {
    UnexpectedToken { expected: Token, found: Token, span: Span },
    UnexpectedEOF,
    ExpectedType { found: Token, span: Span },
    ExpectedPrimary { span: Span },
    ExpectedDelimiter { expected: Token, opened: Token, open_span: Span, end_span: Span },
}

impl ParseError {
    pub open spec fn code_spec(&self) -> Seq<char> {
        match self {
            ParseError::UnexpectedToken { .. } => "parse::unexpected_token"@,
            ParseError::UnexpectedEOF => "parse::unexpected_eof"@,
            ParseError::ExpectedType { .. } => "parse::expected_type"@,
            ParseError::ExpectedPrimary { .. } => "parse::expected_primary"@,
            ParseError::ExpectedDelimiter { .. } => "parse::expected_delimiter"@,
        }
    }

    /// The short machine code that diagnostics expose for this error.
    pub fn code(&self) -> (s: &'static str)
        ensures
            s@ == self.code_spec(),
    {
        match self {
            ParseError::UnexpectedToken { .. } => "parse::unexpected_token",
            ParseError::UnexpectedEOF => "parse::unexpected_eof",
            ParseError::ExpectedType { .. } => "parse::expected_type",
            ParseError::ExpectedPrimary { .. } => "parse::expected_primary",
            ParseError::ExpectedDelimiter { .. } => "parse::expected_delimiter",
        }
    }
}

pub type ParserResult<T> = Result<T, ParseError>;

/// What the parser asks of its input: the token vector a lexer run produces.
/// It is non-empty, the end-of-input token sits exactly at the end, and all
/// spans name the same source.
pub open spec fn tokens_wf(toks: Seq<(Token, Span)>) -> bool {
    &&& toks.len() >= 1
    &&& toks[toks.len() - 1].0 is Eof
    &&& forall|k: int| 0 <= k < toks.len() - 1 ==> !((#[trigger] toks[k]).0 is Eof)
    &&& forall|k: int| 0 <= k < toks.len() ==> (#[trigger] toks[k]).1.src == toks[0].1.src
}

/// Token spans as the lexer makes them: each runs forward, and none starts
/// before the one preceding it ends.
pub open spec fn spans_ordered(toks: Seq<(Token, Span)>) -> bool {
    &&& forall|k: int| 0 <= k < toks.len() ==> (#[trigger] toks[k]).1.start <= toks[k].1.end
    &&& forall|k: int| 0 <= k < toks.len() - 1 ==> (#[trigger] toks[k]).1.end <= toks[k + 1].1.start
}

/// The cursor after consuming one token; it saturates at the last token, so
/// repeated reads at the end of input keep seeing `Eof`.
pub open spec fn adv(toks: Seq<(Token, Span)>, pos: int) -> int {
    if pos + 1 < toks.len() {
        pos + 1
    } else {
        pos
    }
}

/// Does `t` drive the binary level `lvl`?
pub open spec fn level_ops(lvl: int, t: Token) -> bool {
    if lvl == 1 {
        t is Or
    } else if lvl == 2 {
        t is AndAnd
    } else if lvl == 3 {
        t is Eq || t is NotEq || t is Less || t is LessEq || t is Gt || t is GtEq
    } else if lvl == 4 {
        t is Minus
    } else {
        t is Star || t is KwDiv || t is KwMod
    }
}

/// The operator a token denotes.
pub open spec fn binop_of(t: Token) -> BinaryOp {
    match t {
        Token::Or => BinaryOp::Or,
        Token::AndAnd => BinaryOp::And,
        Token::Eq => BinaryOp::Eq,
        Token::NotEq => BinaryOp::NotEq,
        Token::Less => BinaryOp::Less,
        Token::LessEq => BinaryOp::LessEq,
        Token::Gt => BinaryOp::Greater,
        Token::GtEq => BinaryOp::GreaterEq,
        Token::Minus => BinaryOp::Sub,
        Token::Star => BinaryOp::Mul,
        Token::KwDiv => BinaryOp::Div,
        Token::KwMod => BinaryOp::Rem,
        _ => BinaryOp::Or,
    }
}

/// The node a binary step builds: the two operands under the operator, with
/// the span joined from the operands' spans.
pub open spec fn mk_binary(
    left: Spanned<Expr>,
    op: BinaryOp,
    op_span: Span,
    right: Spanned<Expr>,
) -> Spanned<Expr> {
    (
        Expr::Binary { left: Box::new(left), op: (op, op_span), right: Box::new(right) },
        left.1.spec_merge(right.1),
    )
}

/// A primary expression: a literal, an identifier, the unit value `( )`, or
/// a parenthesized expression, whose span widens to the parentheses.
pub open spec fn spec_primary(toks: Seq<(Token, Span)>, pos: int) -> (
    Result<Spanned<Expr>, ParseError>,
    int,
)
    decreases toks.len() - pos, 0int, 0int
        when 0 <= pos < toks.len()
{
    let (token, span) = toks[pos];
    let next = adv(toks, pos);
    match token {
        Token::Int(v) => (Ok((Expr::Value(Literal::Int(v)), span)), next),
        Token::Real(x) => (Ok((Expr::Value(Literal::Real(x)), span)), next),
        Token::Char(c) => (Ok((Expr::Value(Literal::Char(c)), span)), next),
        Token::Bool(b) => (Ok((Expr::Value(Literal::Bool(b)), span)), next),
        Token::Ident(s) => (Ok((Expr::Local(Ident(s)), span)), next),
        Token::LParen => {
            if toks[next].0 is RParen {
                (Ok((Expr::Value(Literal::Unit), span.spec_merge(toks[next].1))), adv(toks, next))
            } else if next <= pos {
                (Err(ParseError::ExpectedPrimary { span }), next)
            } else {
                let (r1, n1) = spec_expr(toks, next);
                match r1 {
                    Err(e) => (Err(e), n1),
                    Ok((expr, expr_span)) => {
                        let n1c = if 0 <= n1 < toks.len() {
                            n1
                        } else {
                            next
                        };
                        if toks[n1c].0 is RParen {
                            (
                                Ok(
                                    (
                                        expr,
                                        span.spec_merge(expr_span).spec_merge(toks[n1c].1),
                                    ),
                                ),
                                adv(toks, n1c),
                            )
                        } else {
                            (
                                Err(
                                    ParseError::ExpectedDelimiter {
                                        expected: Token::RParen,
                                        opened: Token::LParen,
                                        open_span: span,
                                        end_span: expr_span,
                                    },
                                ),
                                n1c,
                            )
                        }
                    },
                }
            }
        },
        _ => (Err(ParseError::ExpectedPrimary { span }), next),
    }
}

/// A unary-level expression: `~`/`not` prefixes, borrow prefixes `&` and
/// `& mut`, or a primary expression.
pub open spec fn spec_unary(toks: Seq<(Token, Span)>, pos: int) -> (
    Result<Spanned<Expr>, ParseError>,
    int,
)
    decreases toks.len() - pos, 1int, 0int
        when 0 <= pos < toks.len()
{
    let (token, op_span) = toks[pos];
    let next = adv(toks, pos);
    if token is KwNot || token is Tilde {
        let op = if token is KwNot {
            UnaryOp::Not
        } else {
            UnaryOp::Neg
        };
        if next <= pos {
            (Err(ParseError::ExpectedPrimary { span: op_span }), next)
        } else {
            let (r1, n1) = spec_unary(toks, next);
            match r1 {
                Err(e) => (Err(e), n1),
                Ok((expr, expr_span)) => (
                    Ok(
                        (
                            Expr::Unary {
                                op: (op, op_span),
                                expr: Box::new((expr, expr_span)),
                            },
                            op_span.spec_merge(expr_span),
                        ),
                    ),
                    n1,
                ),
            }
        }
    } else if token is And {
        if next <= pos {
            (Err(ParseError::ExpectedPrimary { span: op_span }), next)
        } else {
            let (bop, bspan, start) = if toks[next].0 is KwMut {
                (BorrowOp::RefMut, op_span.spec_merge(toks[next].1), adv(toks, next))
            } else {
                (BorrowOp::Ref, op_span, next)
            };
            if start <= pos {
                (Err(ParseError::ExpectedPrimary { span: op_span }), start)
            } else {
                let (r1, n1) = spec_unary(toks, start);
                match r1 {
                    Err(e) => (Err(e), n1),
                    Ok((expr, expr_span)) => (
                        Ok(
                            (
                                Expr::Borrow {
                                    op: (bop, bspan),
                                    expr: Box::new((expr, expr_span)),
                                },
                                bspan.spec_merge(expr_span),
                            ),
                        ),
                        n1,
                    ),
                }
            }
        }
    } else {
        spec_primary(toks, pos)
    }
}

/// The operand of the binary level `lvl`: the next-tighter binary level, or
/// the unary level under the tightest one.
pub open spec fn spec_operand(toks: Seq<(Token, Span)>, pos: int, lvl: int) -> (
    Result<Spanned<Expr>, ParseError>,
    int,
)
    decreases toks.len() - pos, 8 - lvl, 0int
        when 0 <= pos < toks.len() && 1 <= lvl <= 5
{
    if lvl == 5 {
        spec_unary(toks, pos)
    } else {
        spec_binary(toks, pos, lvl + 1)
    }
}

/// A binary level: its operand, then a left-associative run of this level's
/// operators.
pub open spec fn spec_binary(toks: Seq<(Token, Span)>, pos: int, lvl: int) -> (
    Result<Spanned<Expr>, ParseError>,
    int,
)
    decreases toks.len() - pos, 8 - lvl, 1int
        when 0 <= pos < toks.len() && 1 <= lvl <= 5
{
    let (r1, n1) = spec_operand(toks, pos, lvl);
    match r1 {
        Err(e) => (Err(e), n1),
        Ok(left) => {
            let n1c = if pos <= n1 < toks.len() {
                n1
            } else {
                pos
            };
            spec_binary_more(toks, n1c, lvl, left)
        },
    }
}

/// The left-associative run: while the current token drives this level, take
/// one more operand and fold it into the tree from the left.
pub open spec fn spec_binary_more(
    toks: Seq<(Token, Span)>,
    pos: int,
    lvl: int,
    left: Spanned<Expr>,
) -> (Result<Spanned<Expr>, ParseError>, int)
    decreases toks.len() - pos, 8 - lvl, 0int
        when 0 <= pos < toks.len() && 1 <= lvl <= 5
{
    let t = toks[pos].0;
    if level_ops(lvl, t) {
        let op_span = toks[pos].1;
        let next = adv(toks, pos);
        if next <= pos {
            (Err(ParseError::ExpectedPrimary { span: op_span }), next)
        } else {
            let (r2, n2) = spec_operand(toks, next, lvl);
            match r2 {
                Err(e) => (Err(e), n2),
                Ok(right) => {
                    let n2c = if next <= n2 < toks.len() {
                        n2
                    } else {
                        next
                    };
                    spec_binary_more(toks, n2c, lvl, mk_binary(left, binop_of(t), op_span, right))
                },
            }
        }
    } else {
        (Ok(left), pos)
    }
}

/// A whole expression: the loosest binary level.
pub open spec fn spec_expr(toks: Seq<(Token, Span)>, pos: int) -> (
    Result<Spanned<Expr>, ParseError>,
    int,
)
    decreases toks.len() - pos, 8int, 1int
        when 0 <= pos < toks.len()
{
    spec_binary(toks, pos, 1)
}

// ---------------------------------------------------------------------------
// Laws of the model
// ---------------------------------------------------------------------------
/// Ordered spans grow with the token index.
pub proof fn lemma_spans_ordered_mono(toks: Seq<(Token, Span)>, k: int, m: int)
    requires
        spans_ordered(toks),
        0 <= k <= m < toks.len(),
    ensures
        toks[k].1.start <= toks[m].1.start,
        toks[k].1.end <= toks[m].1.end,
        toks[k].1.start <= toks[m].1.end,
        k < m ==> toks[k].1.end <= toks[m].1.start,
    decreases m - k,
{
    if k < m {
        lemma_spans_ordered_mono(toks, k + 1, m);
    }
}

/// What holds of a parse outcome `(r, n)` that started at `pos`: the cursor
/// stays in bounds and moves forward, and a successful result is a
/// well-formed tree whose span runs from the first token consumed to the
/// last.
pub open spec fn parse_props(
    toks: Seq<(Token, Span)>,
    pos: int,
    r: Result<Spanned<Expr>, ParseError>,
    n: int,
) -> bool {
    &&& pos <= n < toks.len()
    &&& (r matches Ok(x) ==> {
        &&& pos < n
        &&& crate::ast::expr_wf(x.0, x.1)
        &&& x.1.src == toks[0].1.src
        &&& x.1.start == toks[pos].1.start
        &&& x.1.end == toks[n - 1].1.end
    })
}

/// Span discipline of a primary parse.
pub proof fn lemma_primary_props(toks: Seq<(Token, Span)>, pos: int)
    requires
        tokens_wf(toks),
        spans_ordered(toks),
        0 <= pos < toks.len(),
    ensures
        parse_props(toks, pos, spec_primary(toks, pos).0, spec_primary(toks, pos).1),
    decreases toks.len() - pos, 0int, 0int,
{
    let (token, span) = toks[pos];
    let next = adv(toks, pos);
    if token is LParen {
        assert(pos < toks.len() - 1);
        if toks[next].0 is RParen {
            lemma_spans_ordered_mono(toks, pos, next);
        } else {
            let (r1, n1) = spec_expr(toks, next);
            lemma_binary_props(toks, next, 1);
            match r1 {
                Err(_) => {},
                Ok((expr, expr_span)) => {
                    lemma_spans_ordered_mono(toks, pos, next);
                    lemma_spans_ordered_mono(toks, pos, n1);
                    lemma_spans_ordered_mono(toks, n1 - 1, n1);
                    if toks[n1].0 is RParen {
                        assert(n1 < toks.len() - 1);
                        let wide = span.spec_merge(expr_span).spec_merge(toks[n1].1);
                        crate::ast::lemma_expr_wf_widen(expr, expr_span, wide);
                    }
                },
            }
        }
    }
}

/// Span discipline of a unary-level parse.
pub proof fn lemma_unary_props(toks: Seq<(Token, Span)>, pos: int)
    requires
        tokens_wf(toks),
        spans_ordered(toks),
        0 <= pos < toks.len(),
    ensures
        parse_props(toks, pos, spec_unary(toks, pos).0, spec_unary(toks, pos).1),
    decreases toks.len() - pos, 1int, 0int,
{
    let (token, op_span) = toks[pos];
    let next = adv(toks, pos);
    if token is KwNot || token is Tilde {
        assert(pos < toks.len() - 1);
        lemma_unary_props(toks, next);
        let (r1, n1) = spec_unary(toks, next);
        if r1 is Ok {
            lemma_spans_ordered_mono(toks, pos, next);
            lemma_spans_ordered_mono(toks, pos, n1 - 1);
        }
    } else if token is And {
        assert(pos < toks.len() - 1);
        if toks[next].0 is KwMut {
            assert(next < toks.len() - 1);
            let start = adv(toks, next);
            lemma_unary_props(toks, start);
            let (r1, n1) = spec_unary(toks, start);
            if r1 is Ok {
                lemma_spans_ordered_mono(toks, pos, next);
                lemma_spans_ordered_mono(toks, pos, start);
                lemma_spans_ordered_mono(toks, pos, n1 - 1);
                lemma_spans_ordered_mono(toks, next, n1 - 1);
            }
        } else {
            lemma_unary_props(toks, next);
            let (r1, n1) = spec_unary(toks, next);
            if r1 is Ok {
                lemma_spans_ordered_mono(toks, pos, next);
                lemma_spans_ordered_mono(toks, pos, n1 - 1);
            }
        }
    } else {
        lemma_primary_props(toks, pos);
    }
}

/// Span discipline of one binary level's operand.
pub proof fn lemma_operand_props(toks: Seq<(Token, Span)>, pos: int, lvl: int)
    requires
        tokens_wf(toks),
        spans_ordered(toks),
        0 <= pos < toks.len(),
        1 <= lvl <= 5,
    ensures
        parse_props(toks, pos, spec_operand(toks, pos, lvl).0, spec_operand(toks, pos, lvl).1),
    decreases toks.len() - pos, 8 - lvl, 0int,
{
    if lvl == 5 {
        lemma_unary_props(toks, pos);
    } else {
        lemma_binary_props(toks, pos, lvl + 1);
    }
}

/// Span discipline of a binary level.
pub proof fn lemma_binary_props(toks: Seq<(Token, Span)>, pos: int, lvl: int)
    requires
        tokens_wf(toks),
        spans_ordered(toks),
        0 <= pos < toks.len(),
        1 <= lvl <= 5,
    ensures
        parse_props(toks, pos, spec_binary(toks, pos, lvl).0, spec_binary(toks, pos, lvl).1),
    decreases toks.len() - pos, 8 - lvl, 1int,
{
    lemma_operand_props(toks, pos, lvl);
    let (r1, n1) = spec_operand(toks, pos, lvl);
    match r1 {
        Err(_) => {},
        Ok(left) => {
            lemma_binary_more_props(toks, n1, lvl, left, pos);
        },
    }
}

/// Span discipline of the left-associative run, relative to where the whole
/// level started.
pub proof fn lemma_binary_more_props(
    toks: Seq<(Token, Span)>,
    pos: int,
    lvl: int,
    left: Spanned<Expr>,
    pstart: int,
)
    requires
        tokens_wf(toks),
        spans_ordered(toks),
        0 <= pstart < pos < toks.len(),
        1 <= lvl <= 5,
        crate::ast::expr_wf(left.0, left.1),
        left.1.src == toks[0].1.src,
        left.1.start == toks[pstart].1.start,
        left.1.end == toks[pos - 1].1.end,
    ensures
        ({
            let (r, n) = spec_binary_more(toks, pos, lvl, left);
            &&& pos <= n < toks.len()
            &&& (r matches Ok(x) ==> {
                &&& crate::ast::expr_wf(x.0, x.1)
                &&& x.1.src == toks[0].1.src
                &&& x.1.start == toks[pstart].1.start
                &&& x.1.end == toks[n - 1].1.end
            })
        }),
    decreases toks.len() - pos, 8 - lvl, 0int,
{
    let t = toks[pos].0;
    if level_ops(lvl, t) {
        assert(pos < toks.len() - 1);
        let next = adv(toks, pos);
        lemma_operand_props(toks, next, lvl);
        let (r2, n2) = spec_operand(toks, next, lvl);
        match r2 {
            Err(_) => {},
            Ok(right) => {
                lemma_spans_ordered_mono(toks, pstart, next);
                lemma_spans_ordered_mono(toks, pstart, pos);
                lemma_spans_ordered_mono(toks, pos - 1, n2 - 1);
                lemma_spans_ordered_mono(toks, pos, n2 - 1);
                let folded = mk_binary(left, binop_of(t), toks[pos].1, right);
                lemma_binary_more_props(toks, n2, lvl, folded, pstart);
            },
        }
    }
}

/// Span discipline of a whole-expression parse: a successful parse from
/// `pos` yields a well-formed tree (the span of every node covers the spans
/// of its immediate children) whose own span runs from the start of the
/// token at `pos` to the end of the last token consumed.
pub proof fn lemma_expr_props(toks: Seq<(Token, Span)>, pos: int)
    requires
        tokens_wf(toks),
        spans_ordered(toks),
        0 <= pos < toks.len(),
    ensures
        parse_props(toks, pos, spec_expr(toks, pos).0, spec_expr(toks, pos).1),
{
    lemma_binary_props(toks, pos, 1);
}

/// The binary level a token drives, or 0 for a token that is no binary
/// operator. Looser operators have smaller levels.
pub open spec fn tok_level(t: Token) -> int {
    if level_ops(1, t) {
        1
    } else if level_ops(2, t) {
        2
    } else if level_ops(3, t) {
        3
    } else if level_ops(4, t) {
        4
    } else if level_ops(5, t) {
        5
    } else {
        0
    }
}

/// A token that is an expression all by itself.
pub open spec fn is_atom_token(t: Token) -> bool {
    t is Int || t is Real || t is Char || t is Bool || t is Ident
}

/// The expression an atom token parses to.
pub open spec fn atom_expr(t: (Token, Span)) -> Spanned<Expr> {
    match t.0 {
        Token::Int(v) => (Expr::Value(Literal::Int(v)), t.1),
        Token::Real(x) => (Expr::Value(Literal::Real(x)), t.1),
        Token::Char(c) => (Expr::Value(Literal::Char(c)), t.1),
        Token::Bool(b) => (Expr::Value(Literal::Bool(b)), t.1),
        Token::Ident(s) => (Expr::Local(Ident(s)), t.1),
        _ => (Expr::Value(Literal::Unit), t.1),
    }
}

/// The five operator sets are disjoint, so a token drives exactly the level
/// `tok_level` names.
proof fn lemma_level_ops_tok_level(t: Token)
    ensures
        level_ops(1, t) ==> tok_level(t) == 1,
        level_ops(2, t) ==> tok_level(t) == 2,
        level_ops(3, t) ==> tok_level(t) == 3,
        level_ops(4, t) ==> tok_level(t) == 4,
        level_ops(5, t) ==> tok_level(t) == 5,
{
}

/// An atom followed by a token that binds looser than this level parses to
/// the atom alone.
proof fn lemma_atom_parse(toks: Seq<(Token, Span)>, pos: int, lvl: int)
    requires
        0 <= pos < toks.len() - 1,
        1 <= lvl <= 5,
        is_atom_token(toks[pos].0),
        tok_level(toks[pos + 1].0) < lvl,
    ensures
        spec_binary(toks, pos, lvl) == (
            Ok::<Spanned<Expr>, ParseError>(atom_expr(toks[pos])),
            pos + 1,
        ),
    decreases 5 - lvl,
{
    lemma_level_ops_tok_level(toks[pos + 1].0);
    assert(!level_ops(lvl, toks[pos + 1].0));
    assert(spec_primary(toks, pos) == (
        Ok::<Spanned<Expr>, ParseError>(atom_expr(toks[pos])),
        pos + 1,
    ));
    if lvl == 5 {
        assert(spec_unary(toks, pos) == (
            Ok::<Spanned<Expr>, ParseError>(atom_expr(toks[pos])),
            pos + 1,
        ));
        assert(spec_operand(toks, pos, 5) == (
            Ok::<Spanned<Expr>, ParseError>(atom_expr(toks[pos])),
            pos + 1,
        ));
        assert(spec_binary_more(toks, pos + 1, lvl, atom_expr(toks[pos])) == (
            Ok::<Spanned<Expr>, ParseError>(atom_expr(toks[pos])),
            pos + 1,
        ));
    } else {
        lemma_atom_parse(toks, pos, lvl + 1);
        assert(spec_operand(toks, pos, lvl) == (
            Ok::<Spanned<Expr>, ParseError>(atom_expr(toks[pos])),
            pos + 1,
        ));
        assert(spec_binary_more(toks, pos + 1, lvl, atom_expr(toks[pos])) == (
            Ok::<Spanned<Expr>, ParseError>(atom_expr(toks[pos])),
            pos + 1,
        ));
    }
}

/// How a stream `a op1 b op2 c` parses at each binary level, for `op1` at
/// least as tight as `op2`: a level looser than both takes everything, one
/// between them takes only `a op1 b`, and one tighter than both takes only
/// `a`.
proof fn lemma_two_ops_parse(toks: Seq<(Token, Span)>, lvl: int)
    requires
        toks.len() == 6,
        is_atom_token(toks[0].0),
        is_atom_token(toks[2].0),
        is_atom_token(toks[4].0),
        toks[5].0 is Eof,
        1 <= lvl <= 5,
        1 <= tok_level(toks[3].0) <= tok_level(toks[1].0) <= 5,
    ensures
        ({
            let l1 = tok_level(toks[1].0);
            let l2 = tok_level(toks[3].0);
            let a = atom_expr(toks[0]);
            let b = atom_expr(toks[2]);
            let c = atom_expr(toks[4]);
            let ab = mk_binary(a, binop_of(toks[1].0), toks[1].1, b);
            let abc = mk_binary(ab, binop_of(toks[3].0), toks[3].1, c);
            spec_binary(toks, 0, lvl) == if lvl > l1 {
                (Ok::<Spanned<Expr>, ParseError>(a), 1int)
            } else if lvl > l2 {
                (Ok::<Spanned<Expr>, ParseError>(ab), 3int)
            } else {
                (Ok::<Spanned<Expr>, ParseError>(abc), 5int)
            }
        }),
    decreases 5 - lvl,
{
    let l1 = tok_level(toks[1].0);
    let l2 = tok_level(toks[3].0);
    let a = atom_expr(toks[0]);
    let b = atom_expr(toks[2]);
    let c = atom_expr(toks[4]);
    let ab = mk_binary(a, binop_of(toks[1].0), toks[1].1, b);
    let abc = mk_binary(ab, binop_of(toks[3].0), toks[3].1, c);
    lemma_level_ops_tok_level(toks[1].0);
    lemma_level_ops_tok_level(toks[3].0);
    lemma_level_ops_tok_level(toks[5].0);
    assert(spec_primary(toks, 0) == (Ok::<Spanned<Expr>, ParseError>(a), 1int));
    assert(spec_primary(toks, 2) == (Ok::<Spanned<Expr>, ParseError>(b), 3int));
    assert(spec_primary(toks, 4) == (Ok::<Spanned<Expr>, ParseError>(c), 5int));
    if lvl == 5 {
        assert(spec_unary(toks, 0) == (Ok::<Spanned<Expr>, ParseError>(a), 1int));
        assert(spec_operand(toks, 0, 5) == (Ok::<Spanned<Expr>, ParseError>(a), 1int));
        if l1 == 5 {
            assert(spec_unary(toks, 2) == (Ok::<Spanned<Expr>, ParseError>(b), 3int));
            assert(spec_operand(toks, 2, 5) == (Ok::<Spanned<Expr>, ParseError>(b), 3int));
            if l2 == 5 {
                assert(spec_unary(toks, 4) == (Ok::<Spanned<Expr>, ParseError>(c), 5int));
                assert(spec_operand(toks, 4, 5) == (Ok::<Spanned<Expr>, ParseError>(c), 5int));
                assert(spec_binary_more(toks, 5, 5, abc) == (
                    Ok::<Spanned<Expr>, ParseError>(abc),
                    5int,
                ));
                assert(spec_binary_more(toks, 3, 5, ab) == (
                    Ok::<Spanned<Expr>, ParseError>(abc),
                    5int,
                ));
                assert(spec_binary_more(toks, 1, 5, a) == (
                    Ok::<Spanned<Expr>, ParseError>(abc),
                    5int,
                ));
            } else {
                assert(!level_ops(5, toks[3].0));
                assert(spec_binary_more(toks, 3, 5, ab) == (
                    Ok::<Spanned<Expr>, ParseError>(ab),
                    3int,
                ));
                assert(spec_binary_more(toks, 1, 5, a) == (
                    Ok::<Spanned<Expr>, ParseError>(ab),
                    3int,
                ));
            }
        } else {
            assert(!level_ops(5, toks[1].0));
            assert(spec_binary_more(toks, 1, 5, a) == (Ok::<Spanned<Expr>, ParseError>(a), 1int));
        }
    } else {
        lemma_two_ops_parse(toks, lvl + 1);
        assert(spec_operand(toks, 0, lvl) == spec_binary(toks, 0, lvl + 1));
        if lvl + 1 > l1 {
            if lvl == l1 {
                assert(level_ops(lvl, toks[1].0));
                lemma_atom_parse(toks, 2, lvl + 1);
                assert(spec_operand(toks, 2, lvl) == (Ok::<Spanned<Expr>, ParseError>(b), 3int));
                if lvl == l2 {
                    assert(level_ops(lvl, toks[3].0));
                    lemma_atom_parse(toks, 4, lvl + 1);
                    assert(spec_operand(toks, 4, lvl) == (
                        Ok::<Spanned<Expr>, ParseError>(c),
                        5int,
                    ));
                    assert(!level_ops(lvl, toks[5].0));
                    assert(spec_binary_more(toks, 5, lvl, abc) == (
                        Ok::<Spanned<Expr>, ParseError>(abc),
                        5int,
                    ));
                    assert(spec_binary_more(toks, 3, lvl, ab) == (
                        Ok::<Spanned<Expr>, ParseError>(abc),
                        5int,
                    ));
                    assert(spec_binary_more(toks, 1, lvl, a) == (
                        Ok::<Spanned<Expr>, ParseError>(abc),
                        5int,
                    ));
                } else {
                    assert(!level_ops(lvl, toks[3].0));
                    assert(spec_binary_more(toks, 3, lvl, ab) == (
                        Ok::<Spanned<Expr>, ParseError>(ab),
                        3int,
                    ));
                    assert(spec_binary_more(toks, 1, lvl, a) == (
                        Ok::<Spanned<Expr>, ParseError>(ab),
                        3int,
                    ));
                }
            } else {
                assert(!level_ops(lvl, toks[1].0));
                assert(spec_binary_more(toks, 1, lvl, a) == (
                    Ok::<Spanned<Expr>, ParseError>(a),
                    1int,
                ));
            }
        } else if lvl + 1 > l2 {
            if lvl == l2 {
                assert(level_ops(lvl, toks[3].0));
                lemma_atom_parse(toks, 4, lvl + 1);
                assert(spec_operand(toks, 4, lvl) == (Ok::<Spanned<Expr>, ParseError>(c), 5int));
                assert(!level_ops(lvl, toks[5].0));
                assert(spec_binary_more(toks, 5, lvl, abc) == (
                    Ok::<Spanned<Expr>, ParseError>(abc),
                    5int,
                ));
                assert(spec_binary_more(toks, 3, lvl, ab) == (
                    Ok::<Spanned<Expr>, ParseError>(abc),
                    5int,
                ));
            } else {
                assert(!level_ops(lvl, toks[3].0));
                assert(spec_binary_more(toks, 3, lvl, ab) == (
                    Ok::<Spanned<Expr>, ParseError>(ab),
                    3int,
                ));
            }
        } else {
            assert(!level_ops(lvl, toks[5].0));
            assert(spec_binary_more(toks, 5, lvl, abc) == (
                Ok::<Spanned<Expr>, ParseError>(abc),
                5int,
            ));
        }
    }
}

/// Precedence law: in `a op1 b op2 c` where `op1` binds strictly tighter
/// than `op2`, the root of the tree is `op2` and its left child's root is
/// `op1`.
pub proof fn lemma_precedence(toks: Seq<(Token, Span)>)
    requires
        toks.len() == 6,
        is_atom_token(toks[0].0),
        is_atom_token(toks[2].0),
        is_atom_token(toks[4].0),
        toks[5].0 is Eof,
        1 <= tok_level(toks[3].0) < tok_level(toks[1].0) <= 5,
    ensures
        ({
            let a = atom_expr(toks[0]);
            let b = atom_expr(toks[2]);
            let c = atom_expr(toks[4]);
            let ab = mk_binary(a, binop_of(toks[1].0), toks[1].1, b);
            let abc = mk_binary(ab, binop_of(toks[3].0), toks[3].1, c);
            spec_expr(toks, 0) == (Ok::<Spanned<Expr>, ParseError>(abc), 5int)
        }),
{
    lemma_two_ops_parse(toks, 1);
}

/// Associativity law: two operators of the same level fold from the left,
/// so `a op1 b op2 c` parses as `(a op1 b) op2 c`.
pub proof fn lemma_left_associative(toks: Seq<(Token, Span)>)
    requires
        toks.len() == 6,
        is_atom_token(toks[0].0),
        is_atom_token(toks[2].0),
        is_atom_token(toks[4].0),
        toks[5].0 is Eof,
        1 <= tok_level(toks[1].0) <= 5,
        tok_level(toks[3].0) == tok_level(toks[1].0),
    ensures
        ({
            let a = atom_expr(toks[0]);
            let b = atom_expr(toks[2]);
            let c = atom_expr(toks[4]);
            let ab = mk_binary(a, binop_of(toks[1].0), toks[1].1, b);
            let abc = mk_binary(ab, binop_of(toks[3].0), toks[3].1, c);
            spec_expr(toks, 0) == (Ok::<Spanned<Expr>, ParseError>(abc), 5int)
        }),
{
    lemma_two_ops_parse(toks, 1);
}

/// The type a type-position token denotes.
pub open spec fn type_of_token(t: Token) -> Option<crate::ast::Type> {
    match t {
        Token::KwInt => Some(crate::ast::Type::Int),
        Token::KwBool => Some(crate::ast::Type::Bool),
        Token::KwChar => Some(crate::ast::Type::Char),
        Token::KwReal => Some(crate::ast::Type::Real),
        Token::KwUnit => Some(crate::ast::Type::Unit),
        _ => None,
    }
}

} // verus!
