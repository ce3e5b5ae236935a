//! The parser: recursive descent with precedence climbing over the token
//! stream, producing a span-tagged expression. Its result is proved equal to
//! the model in `parse_model`. The parser fails fast: the first syntactic
//! error is returned as a value and aborts the parse.

use vstd::prelude::*;

use crate::ast::{BinaryOp, BorrowOp, Expr, Ident, Literal, Type, UnaryOp};
use crate::intern::intern_eq;
use crate::lex_model::lemma_lex_tokens_ordered;
use crate::lexer::{lex_result_ok, tok_model, Token};
use crate::parse_model::{
    adv, binop_of, level_ops, mk_binary, spans_ordered, spec_binary, spec_binary_more, spec_expr,
    spec_operand, spec_primary, spec_unary, tokens_wf, type_of_token,
};
use crate::span::{Span, Spanned, SpannedExt};

pub use crate::parse_model::{ParseError, ParserResult};

verus! {

/// A successful lexer run hands the parser well-formed input, with the
/// token spans in source order.
pub proof fn lemma_lexed_tokens_wf(
    input: Seq<char>,
    src: crate::span::SourceId,
    toks: Vec<Spanned<Token>>,
)
    requires
        lex_result_ok(input, src, Ok(toks)),
    ensures
        tokens_wf(toks@),
        spans_ordered(toks@),
{
    lemma_lex_tokens_ordered(input);
    let mtoks = crate::lex_model::lex_all(input).0;
    assert forall|k: int| 0 <= k < toks@.len() - 1 implies !((#[trigger] toks@[k]).0 is Eof) by {
        assert(tok_model(toks@[k].0) == mtoks[k].0);
    }
    assert(tok_model(toks@[toks@.len() - 1].0) == mtoks[mtoks.len() - 1].0);
}

/// A successfully lexed and fully parsed input gets a span covering its
/// whole non-whitespace extent: the span starts at the byte offset of the
/// first non-whitespace character, and it ends at a byte offset from which
/// only whitespace remains.
pub proof fn lemma_parse_covers_input(
    input: Seq<char>,
    src: crate::span::SourceId,
    toks: Vec<Spanned<Token>>,
    x: Spanned<Expr>,
)
    requires
        lex_result_ok(input, src, Ok(toks)),
        toks@.len() >= 2,
        spec_expr(toks@, 0).0 == Ok::<Spanned<Expr>, ParseError>(x),
        spec_expr(toks@, 0).1 == toks@.len() - 1,
    ensures
        x.1.start == crate::lex_model::byte_at(input, crate::lex_model::skip_ws(input, 0)),
        exists|w: int|
            0 <= w <= input.len() && #[trigger] crate::lex_model::byte_at(input, w) == x.1.end
                && crate::lex_model::skip_ws(input, w) == input.len(),
{
    lemma_lexed_tokens_wf(input, src, toks);
    crate::parse_model::lemma_expr_props(toks@, 0);
    let mtoks = crate::lex_model::lex_all(input).0;
    crate::lex_model::lemma_lex_first_token_start(input);
    crate::lex_model::lemma_lex_tail_ws(input, 0);
    assert(x.1.start == toks@[0].1.start);
    assert(x.1.end == toks@[toks@.len() - 2].1.end);
    assert(toks@[0].1.start == mtoks[0].1);
    assert(toks@[toks@.len() - 2].1.end == mtoks[mtoks.len() - 2].2);
}

/// Parser state: the tokens and a cursor that never leaves the vector.
#[derive(Clone)]
pub struct Parser {
    tokens: Vec<Spanned<Token>>,
    pos: usize,
    len: usize,
}

impl Parser {
    /// The token stream being parsed.
    pub closed spec fn toks(&self) -> Seq<(Token, Span)> {
        self.tokens@
    }

    /// The cursor.
    pub closed spec fn cursor(&self) -> int {
        self.pos as int
    }

    /// Internal consistency: well-formed input and an in-bounds cursor.
    pub closed spec fn wf(&self) -> bool {
        &&& tokens_wf(self.tokens@)
        &&& self.len == self.tokens@.len()
        &&& self.pos < self.tokens@.len()
    }

    pub fn new(tokens: Vec<Spanned<Token>>) -> (p: Parser)
        requires
            tokens_wf(tokens@),
        ensures
            p.wf(),
            p.toks() == tokens@,
            p.cursor() == 0,
    {
        let len = tokens.len();
        Parser { len, tokens, pos: 0 }
    }

    /// The current token with its span.
    fn current(&self) -> (t: &Spanned<Token>)
        requires
            self.wf(),
        ensures
            *t == self.toks()[self.cursor()],
    {
        &self.tokens[self.pos]
    }

    /// The current token.
    fn peek(&self) -> (t: &Token)
        requires
            self.wf(),
        ensures
            *t == self.toks()[self.cursor()].0,
    {
        &self.tokens[self.pos].0
    }

    /// Consumes and returns the current token; at the end of input the
    /// cursor stays put, so repeated calls keep seeing `Eof`.
    fn advance(&mut self) -> (t: Spanned<Token>)
        requires
            old(self).wf(),
        ensures
            final(self).wf(),
            final(self).toks() == old(self).toks(),
            t == old(self).toks()[old(self).cursor()],
            final(self).cursor() == adv(old(self).toks(), old(self).cursor()),
    {
        let tok = self.tokens[self.pos];
        if self.pos < self.len - 1 {
            self.pos = self.pos + 1;
        }
        tok
    }

    /// Consumes the current token if it equals the expected one; otherwise
    /// reports what was found, without consuming it.
    pub fn expect(&mut self, expected: Token) -> (r: ParserResult<Spanned<Token>>)
        requires
            old(self).wf(),
        ensures
            final(self).wf(),
            final(self).toks() == old(self).toks(),
            ({
                let (token, span) = old(self).toks()[old(self).cursor()];
                if tok_model(token) == tok_model(expected) {
                    r == Ok::<Spanned<Token>, ParseError>((token, span)) && final(self).cursor()
                        == adv(old(self).toks(), old(self).cursor())
                } else {
                    r == Err::<Spanned<Token>, ParseError>(
                        ParseError::UnexpectedToken { expected, found: token, span },
                    ) && final(self).cursor() == old(self).cursor()
                }
            }),
    {
        let (token, span) = *self.current();
        if tok_eq(&token, &expected) {
            Ok(self.advance())
        } else {
            Err(ParseError::UnexpectedToken { expected, found: token, span })
        }
    }

    /// Parses a type name in a type position.
    pub fn parse_type(&mut self) -> (r: ParserResult<Spanned<Type>>)
        requires
            old(self).wf(),
        ensures
            final(self).wf(),
            final(self).toks() == old(self).toks(),
            final(self).cursor() == adv(old(self).toks(), old(self).cursor()),
            ({
                let (token, span) = old(self).toks()[old(self).cursor()];
                match type_of_token(token) {
                    Some(ty) => r == Ok::<Spanned<Type>, ParseError>((ty, span)),
                    None => r == Err::<Spanned<Type>, ParseError>(
                        ParseError::ExpectedType { found: token, span },
                    ),
                }
            }),
    {
        let (token, span) = self.advance();
        match token {
            Token::KwInt => Ok((Type::Int, span)),
            Token::KwBool => Ok((Type::Bool, span)),
            Token::KwChar => Ok((Type::Char, span)),
            Token::KwReal => Ok((Type::Real, span)),
            Token::KwUnit => Ok((Type::Unit, span)),
            _ => Err(ParseError::ExpectedType { found: token, span }),
        }
    }

    /// Parses a primary expression: a literal, an identifier, the unit value
    /// `( )`, or a parenthesized expression.
    fn parse_primary(&mut self) -> (r: ParserResult<Spanned<Expr>>)
        requires
            old(self).wf(),
        ensures
            final(self).wf(),
            final(self).toks() == old(self).toks(),
            old(self).cursor() <= final(self).cursor(),
            r is Ok ==> old(self).cursor() < final(self).cursor(),
            r matches Ok(x) ==> x.1.src == old(self).toks()[0].1.src,
            (r, final(self).cursor() as int) == spec_primary(old(self).toks(), old(self).cursor()),
        decreases old(self).toks().len() - old(self).cursor(), 0int, 0int,
    {
        let (token, span) = self.advance();
        match token {
            Token::Int(v) => Ok((Expr::Value(Literal::Int(v)), span)),
            Token::Real(x) => Ok((Expr::Value(Literal::Real(x)), span)),
            Token::Char(c) => Ok((Expr::Value(Literal::Char(c)), span)),
            Token::Bool(b) => Ok((Expr::Value(Literal::Bool(b)), span)),
            Token::Ident(s) => Ok((Expr::Local(Ident(s)), span)),
            Token::LParen => {
                if matches!(*self.peek(), Token::RParen) {
                    let (_, r_span) = self.advance();
                    return Ok((Expr::Value(Literal::Unit), span.merge(r_span)));
                }
                let (expr, expr_span) = match self.parse_expr() {
                    Ok(x) => x,
                    Err(e) => {
                        return Err(e);
                    },
                };
                if matches!(*self.peek(), Token::RParen) {
                    let (_, r_span) = self.advance();
                    Ok((expr, span.merge(expr_span).merge(r_span)))
                } else {
                    Err(
                        ParseError::ExpectedDelimiter {
                            expected: Token::RParen,
                            opened: Token::LParen,
                            open_span: span,
                            end_span: expr_span,
                        },
                    )
                }
            },
            _ => Err(ParseError::ExpectedPrimary { span }),
        }
    }

    /// Parses unary prefixes `~` and `not`, borrow prefixes `&` and `& mut`,
    /// or falls through to a primary expression.
    fn parse_unary(&mut self) -> (r: ParserResult<Spanned<Expr>>)
        requires
            old(self).wf(),
        ensures
            final(self).wf(),
            final(self).toks() == old(self).toks(),
            old(self).cursor() <= final(self).cursor(),
            r is Ok ==> old(self).cursor() < final(self).cursor(),
            r matches Ok(x) ==> x.1.src == old(self).toks()[0].1.src,
            (r, final(self).cursor() as int) == spec_unary(old(self).toks(), old(self).cursor()),
        decreases old(self).toks().len() - old(self).cursor(), 1int, 0int,
    {
        let t = *self.peek();
        if matches!(t, Token::KwNot) || matches!(t, Token::Tilde) {
            let op = if matches!(t, Token::KwNot) {
                UnaryOp::Not
            } else {
                UnaryOp::Neg
            };
            let (_, op_span) = self.advance();
            let (expr, expr_span) = match self.parse_unary() {
                Ok(x) => x,
                Err(e) => {
                    return Err(e);
                },
            };
            let span = op_span.merge(expr_span);
            Ok((Expr::Unary { op: (op, op_span), expr: Box::new((expr, expr_span)) }, span))
        } else if matches!(t, Token::And) {
            let (_, op_span) = self.advance();
            let (op, op_span) = if matches!(*self.peek(), Token::KwMut) {
                let (_, mut_span) = self.advance();
                (BorrowOp::RefMut, op_span.merge(mut_span))
            } else {
                (BorrowOp::Ref, op_span)
            };
            let (expr, expr_span) = match self.parse_unary() {
                Ok(x) => x,
                Err(e) => {
                    return Err(e);
                },
            };
            let span = op_span.merge(expr_span);
            Ok((Expr::Borrow { op: (op, op_span), expr: Box::new((expr, expr_span)) }, span))
        } else {
            self.parse_primary()
        }
    }

    /// Joins two operands under a binary operator; the node's span is the
    /// join of the operands' spans.
    pub fn binary(left: Spanned<Expr>, op: BinaryOp, op_span: Span, right: Spanned<Expr>) -> (r:
        Spanned<Expr>)
        requires
            left.1.src == right.1.src,
        ensures
            r == mk_binary(left, op, op_span, right),
            r.1 == left.1.spec_merge(right.1),
    {
        let span = left.span().merge(right.span());
        (Expr::Binary { left: Box::new(left), op: (op, op_span), right: Box::new(right) }, span)
    }

    /// Parses the multiplicative level: `*`, `div` and `mod`.
    #[verifier::loop_isolation(false)]
    fn parse_multiplicative(&mut self) -> (r: ParserResult<Spanned<Expr>>)
        requires
            old(self).wf(),
        ensures
            final(self).wf(),
            final(self).toks() == old(self).toks(),
            old(self).cursor() <= final(self).cursor(),
            r is Ok ==> old(self).cursor() < final(self).cursor(),
            r matches Ok(x) ==> x.1.src == old(self).toks()[0].1.src,
            (r, final(self).cursor() as int) == spec_binary(
                old(self).toks(),
                old(self).cursor(),
                5,
            ),
        decreases old(self).toks().len() - old(self).cursor(), 3int, 1int,
    {
        let ghost toks = self.toks();
        let ghost p0 = self.cursor();
        let mut left = match self.parse_unary() {
            Ok(l) => l,
            Err(e) => {
                return Err(e);
            },
        };
        proof {
            assert(spec_binary(toks, p0, 5) == spec_binary_more(toks, self.cursor(), 5, left));
        }
        loop
            invariant
                self.wf(),
                self.toks() == toks,
                p0 < self.cursor(),
                left.1.src == toks[0].1.src,
                spec_binary_more(toks, self.cursor(), 5, left) == spec_binary(toks, p0, 5),
            decreases toks.len() - self.cursor(),
        {
            let ghost q = self.cursor();
            let ghost left0 = left;
            let op = match self.peek() {
                Token::Star => BinaryOp::Mul,
                Token::KwDiv => BinaryOp::Div,
                Token::KwMod => BinaryOp::Rem,
                _ => {
                    return Ok(left);
                },
            };
            let (_, op_span) = self.advance();
            proof {
                assert(level_ops(5, toks[q].0));
                assert(q < toks.len() - 1);
                assert(self.cursor() == q + 1);
            }
            let right = match self.parse_unary() {
                Ok(x) => x,
                Err(e) => {
                    proof {
                        assert(spec_operand(toks, q + 1, 5) == (
                            Err::<Spanned<Expr>, ParseError>(e),
                            self.cursor() as int,
                        ));
                        assert(spec_binary_more(toks, q, 5, left0) == (
                            Err::<Spanned<Expr>, ParseError>(e),
                            self.cursor() as int,
                        ));
                    }
                    return Err(e);
                },
            };
            proof {
                assert(spec_operand(toks, q + 1, 5) == (
                    Ok::<Spanned<Expr>, ParseError>(right),
                    self.cursor() as int,
                ));
                assert(binop_of(toks[q].0) == op);
                assert(spec_binary_more(toks, q, 5, left0) == spec_binary_more(
                    toks,
                    self.cursor() as int,
                    5,
                    mk_binary(left0, op, op_span, right),
                ));
            }
            left = Self::binary(left, op, op_span, right);
        }
    }

    /// Parses the additive level: `-`.
    #[verifier::loop_isolation(false)]
    fn parse_additive(&mut self) -> (r: ParserResult<Spanned<Expr>>)
        requires
            old(self).wf(),
        ensures
            final(self).wf(),
            final(self).toks() == old(self).toks(),
            old(self).cursor() <= final(self).cursor(),
            r is Ok ==> old(self).cursor() < final(self).cursor(),
            r matches Ok(x) ==> x.1.src == old(self).toks()[0].1.src,
            (r, final(self).cursor() as int) == spec_binary(
                old(self).toks(),
                old(self).cursor(),
                4,
            ),
        decreases old(self).toks().len() - old(self).cursor(), 4int, 1int,
    {
        let ghost toks = self.toks();
        let ghost p0 = self.cursor();
        let mut left = match self.parse_multiplicative() {
            Ok(l) => l,
            Err(e) => {
                return Err(e);
            },
        };
        proof {
            assert(spec_binary(toks, p0, 4) == spec_binary_more(toks, self.cursor(), 4, left));
        }
        loop
            invariant
                self.wf(),
                self.toks() == toks,
                p0 < self.cursor(),
                left.1.src == toks[0].1.src,
                spec_binary_more(toks, self.cursor(), 4, left) == spec_binary(toks, p0, 4),
            decreases toks.len() - self.cursor(),
        {
            let ghost q = self.cursor();
            let ghost left0 = left;
            let op = match self.peek() {
                Token::Minus => BinaryOp::Sub,
                _ => {
                    return Ok(left);
                },
            };
            let (_, op_span) = self.advance();
            proof {
                assert(level_ops(4, toks[q].0));
                assert(q < toks.len() - 1);
                assert(self.cursor() == q + 1);
            }
            let right = match self.parse_multiplicative() {
                Ok(x) => x,
                Err(e) => {
                    proof {
                        assert(spec_operand(toks, q + 1, 4) == (
                            Err::<Spanned<Expr>, ParseError>(e),
                            self.cursor() as int,
                        ));
                        assert(spec_binary_more(toks, q, 4, left0) == (
                            Err::<Spanned<Expr>, ParseError>(e),
                            self.cursor() as int,
                        ));
                    }
                    return Err(e);
                },
            };
            proof {
                assert(spec_operand(toks, q + 1, 4) == (
                    Ok::<Spanned<Expr>, ParseError>(right),
                    self.cursor() as int,
                ));
                assert(binop_of(toks[q].0) == op);
                assert(spec_binary_more(toks, q, 4, left0) == spec_binary_more(
                    toks,
                    self.cursor() as int,
                    4,
                    mk_binary(left0, op, op_span, right),
                ));
            }
            left = Self::binary(left, op, op_span, right);
        }
    }

    /// Parses the comparison level: `=`, `<>`, `<`, `<=`, `>`, `>=`. These
    /// operators are non-associative in intent; the parser accepts them
    /// left-associatively and leaves the check to a later pass.
    #[verifier::loop_isolation(false)]
    fn parse_comparison(&mut self) -> (r: ParserResult<Spanned<Expr>>)
        requires
            old(self).wf(),
        ensures
            final(self).wf(),
            final(self).toks() == old(self).toks(),
            old(self).cursor() <= final(self).cursor(),
            r is Ok ==> old(self).cursor() < final(self).cursor(),
            r matches Ok(x) ==> x.1.src == old(self).toks()[0].1.src,
            (r, final(self).cursor() as int) == spec_binary(
                old(self).toks(),
                old(self).cursor(),
                3,
            ),
        decreases old(self).toks().len() - old(self).cursor(), 5int, 1int,
    {
        let ghost toks = self.toks();
        let ghost p0 = self.cursor();
        let mut left = match self.parse_additive() {
            Ok(l) => l,
            Err(e) => {
                return Err(e);
            },
        };
        proof {
            assert(spec_binary(toks, p0, 3) == spec_binary_more(toks, self.cursor(), 3, left));
        }
        loop
            invariant
                self.wf(),
                self.toks() == toks,
                p0 < self.cursor(),
                left.1.src == toks[0].1.src,
                spec_binary_more(toks, self.cursor(), 3, left) == spec_binary(toks, p0, 3),
            decreases toks.len() - self.cursor(),
        {
            let ghost q = self.cursor();
            let ghost left0 = left;
            let op = match self.peek() {
                Token::Gt => BinaryOp::Greater,
                Token::GtEq => BinaryOp::GreaterEq,
                Token::Less => BinaryOp::Less,
                Token::LessEq => BinaryOp::LessEq,
                Token::NotEq => BinaryOp::NotEq,
                Token::Eq => BinaryOp::Eq,
                _ => {
                    return Ok(left);
                },
            };
            let (_, op_span) = self.advance();
            proof {
                assert(level_ops(3, toks[q].0));
                assert(q < toks.len() - 1);
                assert(self.cursor() == q + 1);
            }
            let right = match self.parse_additive() {
                Ok(x) => x,
                Err(e) => {
                    proof {
                        assert(spec_operand(toks, q + 1, 3) == (
                            Err::<Spanned<Expr>, ParseError>(e),
                            self.cursor() as int,
                        ));
                        assert(spec_binary_more(toks, q, 3, left0) == (
                            Err::<Spanned<Expr>, ParseError>(e),
                            self.cursor() as int,
                        ));
                    }
                    return Err(e);
                },
            };
            proof {
                assert(spec_operand(toks, q + 1, 3) == (
                    Ok::<Spanned<Expr>, ParseError>(right),
                    self.cursor() as int,
                ));
                assert(binop_of(toks[q].0) == op);
                assert(spec_binary_more(toks, q, 3, left0) == spec_binary_more(
                    toks,
                    self.cursor() as int,
                    3,
                    mk_binary(left0, op, op_span, right),
                ));
            }
            left = Self::binary(left, op, op_span, right);
        }
    }

    /// Parses the conjunction level: `&&`.
    #[verifier::loop_isolation(false)]
    fn parse_and_op(&mut self) -> (r: ParserResult<Spanned<Expr>>)
        requires
            old(self).wf(),
        ensures
            final(self).wf(),
            final(self).toks() == old(self).toks(),
            old(self).cursor() <= final(self).cursor(),
            r is Ok ==> old(self).cursor() < final(self).cursor(),
            r matches Ok(x) ==> x.1.src == old(self).toks()[0].1.src,
            (r, final(self).cursor() as int) == spec_binary(
                old(self).toks(),
                old(self).cursor(),
                2,
            ),
        decreases old(self).toks().len() - old(self).cursor(), 6int, 1int,
    {
        let ghost toks = self.toks();
        let ghost p0 = self.cursor();
        let mut left = match self.parse_comparison() {
            Ok(l) => l,
            Err(e) => {
                return Err(e);
            },
        };
        proof {
            assert(spec_binary(toks, p0, 2) == spec_binary_more(toks, self.cursor(), 2, left));
        }
        loop
            invariant
                self.wf(),
                self.toks() == toks,
                p0 < self.cursor(),
                left.1.src == toks[0].1.src,
                spec_binary_more(toks, self.cursor(), 2, left) == spec_binary(toks, p0, 2),
            decreases toks.len() - self.cursor(),
        {
            let ghost q = self.cursor();
            let ghost left0 = left;
            let op = match self.peek() {
                Token::AndAnd => BinaryOp::And,
                _ => {
                    return Ok(left);
                },
            };
            let (_, op_span) = self.advance();
            proof {
                assert(level_ops(2, toks[q].0));
                assert(q < toks.len() - 1);
                assert(self.cursor() == q + 1);
            }
            let right = match self.parse_comparison() {
                Ok(x) => x,
                Err(e) => {
                    proof {
                        assert(spec_operand(toks, q + 1, 2) == (
                            Err::<Spanned<Expr>, ParseError>(e),
                            self.cursor() as int,
                        ));
                        assert(spec_binary_more(toks, q, 2, left0) == (
                            Err::<Spanned<Expr>, ParseError>(e),
                            self.cursor() as int,
                        ));
                    }
                    return Err(e);
                },
            };
            proof {
                assert(spec_operand(toks, q + 1, 2) == (
                    Ok::<Spanned<Expr>, ParseError>(right),
                    self.cursor() as int,
                ));
                assert(binop_of(toks[q].0) == op);
                assert(spec_binary_more(toks, q, 2, left0) == spec_binary_more(
                    toks,
                    self.cursor() as int,
                    2,
                    mk_binary(left0, op, op_span, right),
                ));
            }
            left = Self::binary(left, op, op_span, right);
        }
    }

    /// Parses the disjunction level: `||`.
    #[verifier::loop_isolation(false)]
    fn parse_or_op(&mut self) -> (r: ParserResult<Spanned<Expr>>)
        requires
            old(self).wf(),
        ensures
            final(self).wf(),
            final(self).toks() == old(self).toks(),
            old(self).cursor() <= final(self).cursor(),
            r is Ok ==> old(self).cursor() < final(self).cursor(),
            r matches Ok(x) ==> x.1.src == old(self).toks()[0].1.src,
            (r, final(self).cursor() as int) == spec_binary(
                old(self).toks(),
                old(self).cursor(),
                1,
            ),
        decreases old(self).toks().len() - old(self).cursor(), 7int, 1int,
    {
        let ghost toks = self.toks();
        let ghost p0 = self.cursor();
        let mut left = match self.parse_and_op() {
            Ok(l) => l,
            Err(e) => {
                return Err(e);
            },
        };
        proof {
            assert(spec_binary(toks, p0, 1) == spec_binary_more(toks, self.cursor(), 1, left));
        }
        loop
            invariant
                self.wf(),
                self.toks() == toks,
                p0 < self.cursor(),
                left.1.src == toks[0].1.src,
                spec_binary_more(toks, self.cursor(), 1, left) == spec_binary(toks, p0, 1),
            decreases toks.len() - self.cursor(),
        {
            let ghost q = self.cursor();
            let ghost left0 = left;
            let op = match self.peek() {
                Token::Or => BinaryOp::Or,
                _ => {
                    return Ok(left);
                },
            };
            let (_, op_span) = self.advance();
            proof {
                assert(level_ops(1, toks[q].0));
                assert(q < toks.len() - 1);
                assert(self.cursor() == q + 1);
            }
            let right = match self.parse_and_op() {
                Ok(x) => x,
                Err(e) => {
                    proof {
                        assert(spec_operand(toks, q + 1, 1) == (
                            Err::<Spanned<Expr>, ParseError>(e),
                            self.cursor() as int,
                        ));
                        assert(spec_binary_more(toks, q, 1, left0) == (
                            Err::<Spanned<Expr>, ParseError>(e),
                            self.cursor() as int,
                        ));
                    }
                    return Err(e);
                },
            };
            proof {
                assert(spec_operand(toks, q + 1, 1) == (
                    Ok::<Spanned<Expr>, ParseError>(right),
                    self.cursor() as int,
                ));
                assert(binop_of(toks[q].0) == op);
                assert(spec_binary_more(toks, q, 1, left0) == spec_binary_more(
                    toks,
                    self.cursor() as int,
                    1,
                    mk_binary(left0, op, op_span, right),
                ));
            }
            left = Self::binary(left, op, op_span, right);
        }
    }

    /// Parses one whole expression.
    fn parse_expr(&mut self) -> (r: ParserResult<Spanned<Expr>>)
        requires
            old(self).wf(),
        ensures
            final(self).wf(),
            final(self).toks() == old(self).toks(),
            old(self).cursor() <= final(self).cursor(),
            r is Ok ==> old(self).cursor() < final(self).cursor(),
            r matches Ok(x) ==> x.1.src == old(self).toks()[0].1.src,
            (r, final(self).cursor() as int) == spec_expr(old(self).toks(), old(self).cursor()),
        decreases old(self).toks().len() - old(self).cursor(), 8int, 1int,
    {
        self.parse_or_op()
    }

    /// Parses the input as one expression; the first syntactic error aborts
    /// the parse and is returned as a value.
    pub fn parse_code(&mut self) -> (r: ParserResult<Spanned<Expr>>)
        requires
            old(self).wf(),
        ensures
            final(self).wf(),
            final(self).toks() == old(self).toks(),
            old(self).cursor() <= final(self).cursor(),
            r is Ok ==> old(self).cursor() < final(self).cursor(),
            r matches Ok(x) ==> x.1.src == old(self).toks()[0].1.src,
            (r, final(self).cursor() as int) == spec_expr(old(self).toks(), old(self).cursor()),
        decreases old(self).toks().len() - old(self).cursor(), 9int, 1int,
    {
        self.parse_or_op()
    }
}

/// Token equality up to payload texts: interned payloads compare by their
/// interned strings.
fn tok_eq(a: &Token, b: &Token) -> (r: bool)
    ensures
        r == (tok_model(*a) == tok_model(*b)),
{
    match (a, b) {
        (Token::KwFun, Token::KwFun) => true,
        (Token::KwInt, Token::KwInt) => true,
        (Token::KwBool, Token::KwBool) => true,
        (Token::KwReal, Token::KwReal) => true,
        (Token::KwChar, Token::KwChar) => true,
        (Token::KwUnit, Token::KwUnit) => true,
        (Token::KwVal, Token::KwVal) => true,
        (Token::KwLet, Token::KwLet) => true,
        (Token::KwIn, Token::KwIn) => true,
        (Token::KwEnd, Token::KwEnd) => true,
        (Token::KwIf, Token::KwIf) => true,
        (Token::KwThen, Token::KwThen) => true,
        (Token::KwElse, Token::KwElse) => true,
        (Token::KwNot, Token::KwNot) => true,
        (Token::KwMut, Token::KwMut) => true,
        (Token::KwWhile, Token::KwWhile) => true,
        (Token::KwDo, Token::KwDo) => true,
        (Token::KwMod, Token::KwMod) => true,
        (Token::KwDiv, Token::KwDiv) => true,
        (Token::Comma, Token::Comma) => true,
        (Token::Cons, Token::Cons) => true,
        (Token::Eq, Token::Eq) => true,
        (Token::NotEq, Token::NotEq) => true,
        (Token::Colon, Token::Colon) => true,
        (Token::ColonEq, Token::ColonEq) => true,
        (Token::LParen, Token::LParen) => true,
        (Token::RParen, Token::RParen) => true,
        (Token::Gt, Token::Gt) => true,
        (Token::GtEq, Token::GtEq) => true,
        (Token::Less, Token::Less) => true,
        (Token::LessEq, Token::LessEq) => true,
        (Token::AndAnd, Token::AndAnd) => true,
        (Token::Or, Token::Or) => true,
        (Token::And, Token::And) => true,
        (Token::Tilde, Token::Tilde) => true,
        (Token::Plus, Token::Plus) => true,
        (Token::Minus, Token::Minus) => true,
        (Token::Star, Token::Star) => true,
        (Token::Real(x), Token::Real(y)) => x.same(y),
        (Token::Int(x), Token::Int(y)) => x == y,
        (Token::Bool(x), Token::Bool(y)) => x == y,
        (Token::Char(x), Token::Char(y)) => x == y,
        (Token::Ident(x), Token::Ident(y)) => intern_eq(x, y),
        (Token::Eof, Token::Eof) => true,
        _ => false,
    }
}

} // verus!
