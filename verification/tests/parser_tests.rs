use syntax::ast::{BinaryOp, BorrowOp, Expr, Literal, Type, UnaryOp};
use syntax::lexer::{Lexer, Token};
use syntax::parse_model::ParseError;
use syntax::parser::Parser;
use syntax::span::{Span, Spanned};

fn parse(input: &str) -> Result<Spanned<Expr>, ParseError> {
    let tokens = Lexer::new(0, input).tokenize().unwrap();
    let mut parser = Parser::new(tokens);
    parser.parse_code()
}

fn span(start: usize, end: usize) -> Span {
    Span::new(0, start..end)
}

#[test]
fn unit_literal() {
    let (expr, sp) = parse("( )").unwrap();
    assert!(matches!(expr, Expr::Value(Literal::Unit)));
    assert_eq!(sp, span(0, 3));
}

#[test]
fn int_literal() {
    let (expr, sp) = parse("42").unwrap();
    assert!(matches!(expr, Expr::Value(Literal::Int(42))));
    assert_eq!(sp, span(0, 2));
}

#[test]
fn char_literal() {
    let (expr, sp) = parse("'\\n'").unwrap();
    assert!(matches!(expr, Expr::Value(Literal::Char('\n'))));
    assert_eq!(sp, span(0, 4));
}

#[test]
fn bool_literals() {
    let (expr, _) = parse("true").unwrap();
    assert!(matches!(expr, Expr::Value(Literal::Bool(true))));
    let (expr, _) = parse("false").unwrap();
    assert!(matches!(expr, Expr::Value(Literal::Bool(false))));
}

#[test]
fn and_binds_tighter_than_or() {
    // a && b || c reads as (a && b) || c, and the outer span covers it all.
    let (expr, sp) = parse("a && b || c").unwrap();
    assert_eq!(sp, span(0, 11));
    match expr {
        Expr::Binary { left, op, right } => {
            assert_eq!(op.0, BinaryOp::Or);
            match left.0 {
                Expr::Binary { op: inner_op, .. } => assert_eq!(inner_op.0, BinaryOp::And),
                other => panic!("expected a conjunction on the left, got {:?}", other),
            }
            assert!(matches!(right.0, Expr::Local(_)));
        },
        other => panic!("expected a disjunction, got {:?}", other),
    }
}

#[test]
fn comparison_operands_and_spans() {
    let (expr, sp) = parse("1 < 2").unwrap();
    assert_eq!(sp, span(0, 5));
    match expr {
        Expr::Binary { left, op, right } => {
            assert!(matches!(left.0, Expr::Value(Literal::Int(1))));
            assert_eq!(left.1, span(0, 1));
            assert_eq!(op.0, BinaryOp::Less);
            assert_eq!(op.1, span(2, 3));
            assert!(matches!(right.0, Expr::Value(Literal::Int(2))));
            assert_eq!(right.1, span(4, 5));
        },
        other => panic!("expected a comparison, got {:?}", other),
    }
}

#[test]
fn missing_close_paren() {
    let err = parse("(1").unwrap_err();
    match err {
        ParseError::ExpectedDelimiter { expected, opened, open_span, .. } => {
            assert_eq!(expected, Token::RParen);
            assert_eq!(opened, Token::LParen);
            assert_eq!(open_span, span(0, 1));
        },
        other => panic!("expected a delimiter error, got {:?}", other),
    }
    assert_eq!(parse("(1").unwrap_err().code(), "parse::expected_delimiter");
}

#[test]
fn nested_negation() {
    let (expr, sp) = parse("~ ~ x").unwrap();
    assert_eq!(sp, span(0, 5));
    match expr {
        Expr::Unary { op, expr: inner } => {
            assert_eq!(op.0, UnaryOp::Neg);
            assert_eq!(op.1, span(0, 1));
            assert_eq!(inner.1, span(2, 5));
            match inner.0 {
                Expr::Unary { op: op2, expr: innermost } => {
                    assert_eq!(op2.0, UnaryOp::Neg);
                    assert_eq!(op2.1, span(2, 3));
                    assert!(matches!(innermost.0, Expr::Local(_)));
                    assert_eq!(innermost.1, span(4, 5));
                },
                other => panic!("expected a nested negation, got {:?}", other),
            }
        },
        other => panic!("expected a negation, got {:?}", other),
    }
}

#[test]
fn precedence_tighter_op_groups_first() {
    // 1 * 2 - 3: the root is the looser -, its left child the tighter *.
    let (expr, _) = parse("1 * 2 - 3").unwrap();
    match expr {
        Expr::Binary { left, op, right } => {
            assert_eq!(op.0, BinaryOp::Sub);
            match left.0 {
                Expr::Binary { op: inner_op, .. } => assert_eq!(inner_op.0, BinaryOp::Mul),
                other => panic!("expected a product on the left, got {:?}", other),
            }
            assert!(matches!(right.0, Expr::Value(Literal::Int(3))));
        },
        other => panic!("expected a difference, got {:?}", other),
    }
    // 1 - 2 * 3: the product groups on the right instead.
    let (expr, _) = parse("1 - 2 * 3").unwrap();
    match expr {
        Expr::Binary { left, op, right } => {
            assert_eq!(op.0, BinaryOp::Sub);
            assert!(matches!(left.0, Expr::Value(Literal::Int(1))));
            assert!(matches!(right.0, Expr::Binary { .. }));
        },
        other => panic!("expected a difference, got {:?}", other),
    }
}

#[test]
fn subtraction_is_left_associative() {
    // 1 - 2 - 3 reads as (1 - 2) - 3.
    let (expr, _) = parse("1 - 2 - 3").unwrap();
    match expr {
        Expr::Binary { left, op, right } => {
            assert_eq!(op.0, BinaryOp::Sub);
            match left.0 {
                Expr::Binary { left: ll, op: lop, right: lr } => {
                    assert_eq!(lop.0, BinaryOp::Sub);
                    assert!(matches!(ll.0, Expr::Value(Literal::Int(1))));
                    assert!(matches!(lr.0, Expr::Value(Literal::Int(2))));
                },
                other => panic!("expected a left-leaning tree, got {:?}", other),
            }
            assert!(matches!(right.0, Expr::Value(Literal::Int(3))));
        },
        other => panic!("expected a difference, got {:?}", other),
    }
}

#[test]
fn div_and_mod_chain_left() {
    let (expr, _) = parse("x div y mod z").unwrap();
    match expr {
        Expr::Binary { left, op, .. } => {
            assert_eq!(op.0, BinaryOp::Rem);
            match left.0 {
                Expr::Binary { op: inner_op, .. } => assert_eq!(inner_op.0, BinaryOp::Div),
                other => panic!("expected a quotient on the left, got {:?}", other),
            }
        },
        other => panic!("expected a remainder, got {:?}", other),
    }
}

#[test]
fn binary_span_joins_children() {
    let (expr, sp) = parse("10 - 2").unwrap();
    match expr {
        Expr::Binary { left, right, .. } => {
            assert_eq!(sp.start, left.1.start);
            assert_eq!(sp.end, right.1.end);
        },
        other => panic!("expected a difference, got {:?}", other),
    }
}

#[test]
fn parenthesized_span_widens_to_parens() {
    let (expr, sp) = parse("(1 - 2)").unwrap();
    assert_eq!(sp, span(0, 7));
    match expr {
        Expr::Binary { left, right, .. } => {
            assert_eq!(left.1, span(1, 2));
            assert_eq!(right.1, span(5, 6));
        },
        other => panic!("expected a difference, got {:?}", other),
    }
}

#[test]
fn borrow_prefixes() {
    let (expr, sp) = parse("&mut x").unwrap();
    assert_eq!(sp, span(0, 6));
    match expr {
        Expr::Borrow { op, expr: inner } => {
            assert_eq!(op.0, BorrowOp::RefMut);
            assert_eq!(op.1, span(0, 4));
            assert!(matches!(inner.0, Expr::Local(_)));
        },
        other => panic!("expected a borrow, got {:?}", other),
    }
    let (expr, _) = parse("&x").unwrap();
    match expr {
        Expr::Borrow { op, .. } => assert_eq!(op.0, BorrowOp::Ref),
        other => panic!("expected a borrow, got {:?}", other),
    }
}

#[test]
fn not_prefix() {
    let (expr, _) = parse("not true").unwrap();
    match expr {
        Expr::Unary { op, expr: inner } => {
            assert_eq!(op.0, UnaryOp::Not);
            assert!(matches!(inner.0, Expr::Value(Literal::Bool(true))));
        },
        other => panic!("expected a negation, got {:?}", other),
    }
}

#[test]
fn expected_primary_error() {
    let err = parse(")").unwrap_err();
    assert!(matches!(err, ParseError::ExpectedPrimary { .. }));
    assert_eq!(err.code(), "parse::expected_primary");
}

#[test]
fn parse_type_accepts_every_base_type() {
    let cases: Vec<(&str, Type)> = vec![
        ("int", Type::Int),
        ("bool", Type::Bool),
        ("char", Type::Char),
        ("real", Type::Real),
        ("unit", Type::Unit),
    ];
    for (text, expected) in cases {
        let tokens = Lexer::new(0, text).tokenize().unwrap();
        let mut parser = Parser::new(tokens);
        let (ty, _) = parser.parse_type().unwrap();
        assert_eq!(ty, expected);
    }
}

#[test]
fn parse_type_rejects_non_types() {
    let tokens = Lexer::new(0, ",").tokenize().unwrap();
    let mut parser = Parser::new(tokens);
    let err = parser.parse_type().unwrap_err();
    match err {
        ParseError::ExpectedType { found, .. } => assert_eq!(found, Token::Comma),
        other => panic!("expected a type error, got {:?}", other),
    }
    assert_eq!(err.code(), "parse::expected_type");
}

#[test]
fn expect_reports_the_found_token() {
    let tokens = Lexer::new(0, "42").tokenize().unwrap();
    let mut parser = Parser::new(tokens);
    let err = parser.expect(Token::LParen).unwrap_err();
    match err {
        ParseError::UnexpectedToken { expected, found, span: sp } => {
            assert_eq!(expected, Token::LParen);
            assert_eq!(found, Token::Int(42));
            assert_eq!(sp, span(0, 2));
        },
        other => panic!("expected a token mismatch, got {:?}", other),
    }
    assert_eq!(err.code(), "parse::unexpected_token");
}

#[test]
fn parse_stops_at_the_first_unconsumed_token() {
    // A stray token after a complete expression is left for the caller.
    let tokens = Lexer::new(0, "1 2").tokenize().unwrap();
    let mut parser = Parser::new(tokens);
    let (expr, _) = parser.parse_code().unwrap();
    assert!(matches!(expr, Expr::Value(Literal::Int(1))));
}

#[test]
fn span_covers_the_trimmed_input() {
    // Surrounding whitespace is elided: the span runs from the first
    // non-whitespace byte to the end of the last token.
    let (_, sp) = parse("  1 - 2  ").unwrap();
    assert_eq!(sp, span(2, 7));
}

#[test]
fn operator_symbols_and_type_names() {
    assert_eq!(BinaryOp::Sub.symbol(), "-");
    assert_eq!(BinaryOp::Rem.symbol(), "mod");
    assert_eq!(BinaryOp::Div.symbol(), "div");
    assert_eq!(BinaryOp::NotEq.symbol(), "<>");
    assert_eq!(UnaryOp::Neg.symbol(), "~");
    assert_eq!(UnaryOp::Not.symbol(), "not");
    assert_eq!(BorrowOp::Ref.symbol(), "&");
    assert_eq!(BorrowOp::RefMut.symbol(), "&mut");
    assert_eq!(Type::Int.name(), "int");
    assert_eq!(Type::Unit.name(), "()");
}
