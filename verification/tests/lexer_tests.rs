use syntax::ast::{Ident, RealText};
use syntax::lexer::{LexError, Lexer, Token};
use syntax::span::SourceId;

#[test]
fn test_basic_tokens() {
    let src_id = SourceId::default();
    let lexer = Lexer::new(src_id, "( ) , = ::");
    let tokens = lexer.tokenize().unwrap();

    assert_eq!(tokens.len(), 6); // 5 tokens + EOF
    assert_eq!(tokens[0].0, Token::LParen);
    assert_eq!(tokens[1].0, Token::RParen);
    assert_eq!(tokens[2].0, Token::Comma);
    assert_eq!(tokens[3].0, Token::Eq);
    assert_eq!(tokens[4].0, Token::Cons);
    assert_eq!(tokens[5].0, Token::Eof);
}

#[test]
fn test_numbers() {
    let src_id = SourceId::default();
    let lexer = Lexer::new(src_id, "42 3.14 .5 1e10 2.5e-3");
    let tokens = lexer.tokenize().unwrap();

    assert_eq!(tokens[0].0, Token::Int(42));
    assert_eq!(tokens[2].0, Token::Real(RealText::new(".5")));
    match &tokens[2].0 {
        Token::Real(r) => assert_eq!(r.text().parse::<f64>().unwrap(), 0.5),
        other => panic!("expected a real literal, got {:?}", other),
    }
}

#[test]
fn test_keywords() {
    let src_id = SourceId::default();
    let lexer = Lexer::new(src_id, "fun if then else true false");
    let tokens = lexer.tokenize().unwrap();

    assert_eq!(tokens[0].0, Token::KwFun);
    assert_eq!(tokens[1].0, Token::KwIf);
    assert_eq!(tokens[2].0, Token::KwThen);
    assert_eq!(tokens[3].0, Token::KwElse);
    assert_eq!(tokens[4].0, Token::Bool(true));
    assert_eq!(tokens[5].0, Token::Bool(false));
}

#[test]
fn test_char_literals() {
    let src_id = SourceId::default();
    let lexer = Lexer::new(src_id, r"'a' '\n' '\'' '\\'");
    let tokens = lexer.tokenize().unwrap();

    assert_eq!(tokens[0].0, Token::Char('a'));
    assert_eq!(tokens[1].0, Token::Char('\n'));
    assert_eq!(tokens[2].0, Token::Char('\''));
    assert_eq!(tokens[3].0, Token::Char('\\'));
}

#[test]
fn all_keywords_tokenize_as_keywords() {
    let cases: Vec<(&str, Token)> = vec![
        ("fun", Token::KwFun),
        ("int", Token::KwInt),
        ("bool", Token::KwBool),
        ("real", Token::KwReal),
        ("char", Token::KwChar),
        ("unit", Token::KwUnit),
        ("val", Token::KwVal),
        ("let", Token::KwLet),
        ("in", Token::KwIn),
        ("end", Token::KwEnd),
        ("if", Token::KwIf),
        ("then", Token::KwThen),
        ("else", Token::KwElse),
        ("not", Token::KwNot),
        ("mut", Token::KwMut),
        ("while", Token::KwWhile),
        ("do", Token::KwDo),
        ("mod", Token::KwMod),
        ("div", Token::KwDiv),
        ("true", Token::Bool(true)),
        ("false", Token::Bool(false)),
    ];
    for (text, expected) in cases {
        let tokens = Lexer::new(0, text).tokenize().unwrap();
        assert_eq!(tokens.len(), 2, "{}", text);
        assert_eq!(tokens[0].0, expected, "{}", text);
        assert!(!matches!(tokens[0].0, Token::Ident(_)), "{}", text);
        assert_eq!(tokens[1].0, Token::Eof);
    }
}

#[test]
fn token_spans_are_ordered_and_eof_terminated() {
    let tokens = Lexer::new(7, "val x := 10 - 2").tokenize().unwrap();
    for t in &tokens {
        assert_eq!(t.1.src, 7);
        assert!(t.1.start <= t.1.end);
    }
    for w in tokens.windows(2) {
        assert!(w[0].1.end <= w[1].1.start);
    }
    assert_eq!(tokens.last().unwrap().0, Token::Eof);
    assert_eq!(tokens.last().unwrap().1.start, 15);
    assert_eq!(tokens.last().unwrap().1.end, 15);
    assert_eq!(tokens.iter().filter(|t| t.0 == Token::Eof).count(), 1);
}

#[test]
fn token_spans_name_the_lexemes() {
    let input = "  fun  twice ( 42 ) ";
    let tokens = Lexer::new(0, input).tokenize().unwrap();
    for t in tokens.iter().take(tokens.len() - 1) {
        let lexeme = &input[t.1.start..t.1.end];
        assert!(!lexeme.is_empty());
        assert!(!lexeme.chars().any(|c| c.is_whitespace()));
    }
    assert_eq!(&input[tokens[0].1.start..tokens[0].1.end], "fun");
    assert_eq!(&input[tokens[1].1.start..tokens[1].1.end], "twice");
    assert_eq!(&input[tokens[3].1.start..tokens[3].1.end], "42");
}

#[test]
fn lexing_is_idempotent() {
    let input = "let x := 1.5 in ~x && 'q' end";
    let first = Lexer::new(3, input).tokenize().unwrap();
    let second = Lexer::new(3, input).tokenize().unwrap();
    assert_eq!(first, second);
}

#[test]
fn multibyte_characters_get_byte_spans() {
    // The payload is a two-byte scalar, so the literal covers four bytes.
    let tokens = Lexer::new(0, "'\u{e9}' x").tokenize().unwrap();
    assert_eq!(tokens[0].0, Token::Char('\u{e9}'));
    assert_eq!((tokens[0].1.start, tokens[0].1.end), (0, 4));
    assert_eq!((tokens[1].1.start, tokens[1].1.end), (5, 6));
}

#[test]
fn int_overflow_is_an_error() {
    let errs = Lexer::new(0, "99999999999999999999999999999999").tokenize().unwrap_err();
    assert_eq!(errs.len(), 1);
    assert_eq!(
        errs[0].0,
        LexError::InvalidInt("99999999999999999999999999999999".to_string())
    );
    assert_eq!(errs[0].0.code(), "lex::invalid_int");
}

#[test]
fn int_at_bound_still_lexes() {
    let text = usize::MAX.to_string();
    let tokens = Lexer::new(0, &text).tokenize().unwrap();
    assert_eq!(tokens[0].0, Token::Int(usize::MAX));
}

#[test]
fn dangling_exponent_is_invalid_float() {
    let errs = Lexer::new(0, "1e").tokenize().unwrap_err();
    assert_eq!(errs[0].0, LexError::InvalidFloat("1e".to_string()));
    assert_eq!(errs[0].0.code(), "lex::invalid_float");
    let errs = Lexer::new(0, "2.5e+").tokenize().unwrap_err();
    assert_eq!(errs[0].0, LexError::InvalidFloat("2.5e+".to_string()));
}

#[test]
fn empty_char_literal() {
    let errs = Lexer::new(0, "''").tokenize().unwrap_err();
    assert_eq!(errs.len(), 1);
    assert_eq!(errs[0].0, LexError::EmptyChar);
    assert_eq!(errs[0].0.code(), "lex::empty_char");
}

#[test]
fn multi_char_literal_is_one_error() {
    let errs = Lexer::new(0, "'ab'").tokenize().unwrap_err();
    assert_eq!(errs.len(), 1);
    assert_eq!(errs[0].0, LexError::MultiChar);
    assert_eq!((errs[0].1.start, errs[0].1.end), (0, 4));
}

#[test]
fn unknown_escape() {
    let errs = Lexer::new(0, r"'\q'").tokenize().unwrap_err();
    assert_eq!(errs.len(), 1);
    assert_eq!(errs[0].0, LexError::UnknownEscape('q'));
    assert_eq!(errs[0].0.code(), "lex::unknown_escape");
}

#[test]
fn unterminated_char_literal() {
    let errs = Lexer::new(0, "'a").tokenize().unwrap_err();
    assert_eq!(errs.len(), 1);
    assert_eq!(errs[0].0, LexError::UnterminatedChar);
    assert_eq!(errs[0].0.code(), "lex::unterminated_char");
}

#[test]
fn stray_characters_are_invalid_tokens() {
    let errs = Lexer::new(0, "a $ | .").tokenize().unwrap_err();
    assert_eq!(errs.len(), 3);
    for e in &errs {
        assert_eq!(e.0, LexError::InvalidToken);
        assert_eq!(e.0.code(), "lex::invalid_token");
    }
}

#[test]
fn errors_are_collected_across_the_whole_input() {
    let errs = Lexer::new(0, "'' $ 1e").tokenize().unwrap_err();
    assert_eq!(errs.len(), 3);
    assert_eq!(errs[0].0, LexError::EmptyChar);
    assert_eq!(errs[1].0, LexError::InvalidToken);
    assert_eq!(errs[2].0, LexError::InvalidFloat("1e".to_string()));
}

#[test]
fn lex_error_default_is_invalid_token() {
    assert_eq!(LexError::default(), LexError::InvalidToken);
}

#[test]
fn dot_prefixed_real() {
    let tokens = Lexer::new(0, ".5").tokenize().unwrap();
    assert_eq!(tokens[0].0, Token::Real(RealText::new(".5")));
    assert_eq!((tokens[0].1.start, tokens[0].1.end), (0, 2));
}

#[test]
fn interned_identifiers_compare_by_text() {
    let a = Ident::new("twice");
    let b = Ident::new("twice");
    let c = Ident::new("thrice");
    assert!(a.same(&b));
    assert!(!a.same(&c));
    assert_eq!(a, b);
    assert_eq!(a.text().as_str(), "twice");

    let tokens = Lexer::new(0, "twice twice").tokenize().unwrap();
    assert_eq!(tokens[0].0, tokens[1].0);
    assert_eq!(tokens[0].0, Token::Ident(internment::Intern::new("twice".to_string())));
}

#[test]
fn exponent_forms_lex_as_reals() {
    let tokens = Lexer::new(0, "3.14 1e10 2.5e-3 1.e5 7.").tokenize().unwrap();
    let expected = vec![3.14f64, 1e10, 2.5e-3, 1.0e5, 7.0];
    for (t, want) in tokens.iter().zip(expected) {
        match &t.0 {
            Token::Real(r) => assert_eq!(r.text().parse::<f64>().unwrap(), want),
            other => panic!("expected a real literal, got {:?}", other),
        }
    }
}

#[test]
fn adjacent_number_runs_split_at_the_second_dot() {
    // A second dot ends the run; a dot followed by a digit starts a new one.
    let tokens = Lexer::new(0, "1.2.3").tokenize().unwrap();
    assert_eq!(tokens.len(), 3);
    assert_eq!(tokens[0].0, Token::Real(RealText::new("1.2")));
    assert_eq!(tokens[1].0, Token::Real(RealText::new(".3")));
}

#[test]
fn real_text_round_trip() {
    let r = RealText::new("2.5e-3");
    assert_eq!(r.text().as_str(), "2.5e-3");
    assert!(r.same(&RealText::new("2.5e-3")));
    assert!(!r.same(&RealText::new("2.5e-4")));
    let tokens = Lexer::new(0, "2.5e-3").tokenize().unwrap();
    assert_eq!(tokens[0].0, Token::Real(r));
}
