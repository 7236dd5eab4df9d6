use shaba::driver::DriverError;
use shaba::error::ShabaCompilerError;
use shaba::lexer::{
    self,
    error::{LexerError, LexingError},
    token::{Keyword, SourceLocation, Token, TokenKind},
};
use shaba::parse_source;
use shaba::parser::{
    self,
    ast::{Cmp, Decl, Expr, Node, Operator, UnaryOp},
    error::{ExpectedToken, ParserError, ParsingError},
    parser::Parser,
    scanner::Scanner,
};

fn parse_text(input: &str) -> Result<Vec<Node>, ParserError> {
    parser::parse(lexer::tokenize(input).unwrap())
}

fn lit(n: i32) -> Box<Expr> {
    Box::new(Expr::Int(n))
}

#[test]
fn precedence_of_product_over_sum() {
    let result = parse_text("1 + 2 * 3").unwrap();
    let expected = vec![Node::Expr(Expr::Binary {
        op: Operator::Plus,
        lhs: lit(1),
        rhs: Box::new(Expr::Binary {
            op: Operator::Asterisk,
            lhs: lit(2),
            rhs: lit(3),
        }),
    })];
    assert_eq!(result, expected);
}

#[test]
fn subtraction_associates_left() {
    let result = parse_text("1 - 2 - 3").unwrap();
    let expected = vec![Node::Expr(Expr::Binary {
        op: Operator::Minus,
        lhs: Box::new(Expr::Binary {
            op: Operator::Minus,
            lhs: lit(1),
            rhs: lit(2),
        }),
        rhs: lit(3),
    })];
    assert_eq!(result, expected);
}

#[test]
fn empty_parentheses_are_unit() {
    assert_eq!(parse_text("()").unwrap(), vec![Node::Expr(Expr::Unit)]);
}

#[test]
fn parenthesised_literal_is_the_literal() {
    assert_eq!(parse_text("(1)").unwrap(), vec![Node::Expr(Expr::Int(1))]);
}

#[test]
fn grouping_overrides_precedence() {
    let result = parse_text("(1 + 2) * 3").unwrap();
    let expected = vec![Node::Expr(Expr::Binary {
        op: Operator::Asterisk,
        lhs: Box::new(Expr::Binary {
            op: Operator::Plus,
            lhs: lit(1),
            rhs: lit(2),
        }),
        rhs: lit(3),
    })];
    assert_eq!(result, expected);
}

#[test]
fn comparison_binds_tighter_than_equality() {
    let result = parse_text("1 < 2 == 3 >= 4").unwrap();
    let expected = vec![Node::Expr(Expr::Binary {
        op: Operator::Cmp(Cmp::Eq),
        lhs: Box::new(Expr::Binary {
            op: Operator::Cmp(Cmp::LessThan),
            lhs: lit(1),
            rhs: lit(2),
        }),
        rhs: Box::new(Expr::Binary {
            op: Operator::Cmp(Cmp::GreaterThanEq),
            lhs: lit(3),
            rhs: lit(4),
        }),
    })];
    assert_eq!(result, expected);
}

#[test]
fn not_equal_and_unary_negate() {
    let result = parse_text("!true != -1 / 2").unwrap();
    let expected = vec![Node::Expr(Expr::Binary {
        op: Operator::Cmp(Cmp::NotEq),
        lhs: Box::new(Expr::Unary {
            op: UnaryOp::Negate,
            expr: Box::new(Expr::Bool(true)),
        }),
        rhs: Box::new(Expr::Binary {
            op: Operator::Slash,
            lhs: Box::new(Expr::Unary {
                op: UnaryOp::Minus,
                expr: lit(1),
            }),
            rhs: lit(2),
        }),
    })];
    assert_eq!(result, expected);
}

#[test]
fn malformed_statement_does_not_discard_the_rest() {
    let error = parse_text("let = 5\nlet y = 2").unwrap_err();
    assert_eq!(
        error.recovered,
        vec![Node::Decl(Decl::Let {
            identifier: "y".to_string(),
            expression: Expr::Int(2),
        })]
    );
    assert_eq!(
        error.errors,
        vec![ParsingError::ExpectedToken(
            ExpectedToken::Identifier,
            Some((SourceLocation::new(1, 5), SourceLocation::new(1, 6))),
        )]
    );
}

#[test]
fn recovery_stops_after_semicolon() {
    let error = parse_text(") 1 ; 2").unwrap_err();
    assert_eq!(error.recovered, vec![Node::Expr(Expr::Int(2))]);
    assert_eq!(error.errors.len(), 1);
}

#[test]
fn missing_closing_paren_keeps_inner_expression() {
    let error = parse_text("(1 2").unwrap_err();
    assert_eq!(
        error.recovered,
        vec![Node::Expr(Expr::Int(1)), Node::Expr(Expr::Int(2))]
    );
    assert_eq!(
        error.errors,
        vec![ParsingError::ExpectedToken(
            ExpectedToken::ClosingParen,
            Some((SourceLocation::new(1, 4), SourceLocation::new(1, 5))),
        )]
    );
}

#[test]
fn missing_operand_at_end_of_input() {
    let error = parse_text("1 +").unwrap_err();
    assert_eq!(error.recovered, Vec::<Node>::new());
    assert_eq!(
        error.errors,
        vec![ParsingError::ExpectedToken(ExpectedToken::Expression, None)]
    );
}

#[test]
fn let_without_equals() {
    let error = parse_text("let x 1").unwrap_err();
    assert_eq!(
        error.errors,
        vec![ParsingError::ExpectedToken(
            ExpectedToken::Equals,
            Some((SourceLocation::new(1, 7), SourceLocation::new(1, 8))),
        )]
    );
}

#[test]
fn fn_decl_errors_name_the_missing_token() {
    let cases = [
        ("fn f) {}", ExpectedToken::OpenParen),
        ("fn f( {}", ExpectedToken::ClosingParen),
        ("fn f() }", ExpectedToken::OpenBrace),
        ("fn f() {", ExpectedToken::CloseBrace),
        ("fn 1", ExpectedToken::Identifier),
    ];
    for (input, expected) in cases {
        let error = parse_text(input).unwrap_err();
        assert_eq!(error.errors.len(), 1);
        match &error.errors[0] {
            ParsingError::ExpectedToken(found, _) => assert_eq!(*found, expected),
            other => panic!("unexpected {:?}", other),
        }
    }
}

#[test]
fn every_failed_statement_is_reported() {
    let error = parse_text("let 1\nlet 2\nlet z = 3").unwrap_err();
    assert_eq!(error.errors.len(), 2);
    assert_eq!(
        error.recovered,
        vec![Node::Decl(Decl::Let {
            identifier: "z".to_string(),
            expression: Expr::Int(3),
        })]
    );
}

#[test]
fn no_tokens_no_statements() {
    assert_eq!(parser::parse(Vec::new()).unwrap(), Vec::<Node>::new());
}

#[test]
fn parser_struct_parses_like_parse() {
    let tokens = lexer::tokenize("let a = 1").unwrap();
    let result = Parser::new(tokens).parse().unwrap();
    assert_eq!(
        result,
        vec![Node::Decl(Decl::Let {
            identifier: "a".to_string(),
            expression: Expr::Int(1),
        })]
    );
}

#[test]
fn token_conversions() {
    let tokens = lexer::tokenize("<= - let name \"s\"").unwrap();
    assert_eq!(tokens[0].as_comparison(), Some(Cmp::LessThanEq));
    assert_eq!(tokens[1].as_operator(), Some(Operator::Minus));
    assert_eq!(UnaryOp::from(&tokens[1]), Some(UnaryOp::Minus));
    assert_eq!(tokens[2].as_keyword(), Some(Keyword::Let));
    assert_eq!(tokens[3].as_identifier(), Some("name".to_string()));
    assert_eq!(tokens[4].as_literal_expr(), Some(Expr::String("s".to_string())));
    assert_eq!(tokens[0].as_operator(), None);
}

#[test]
fn scanner_moves_one_token_at_a_time() {
    let tokens = lexer::tokenize("a b").unwrap();
    let mut scanner = Scanner::new(tokens.clone());
    assert!(scanner.peek_prev().is_none());
    assert_eq!(scanner.peek(), Some(&tokens[0]));
    assert_eq!(scanner.peek_next(), Some(&tokens[1]));
    assert_eq!(scanner.next(), Some(&tokens[0]));
    assert_eq!(scanner.peek_prev(), Some(&tokens[0]));
    scanner.increment_cursor();
    assert!(scanner.is_eof());
    assert!(scanner.next().is_none());
}

#[test]
fn parse_source_composes_both_stages() {
    assert_eq!(
        parse_source("let n = 1 + 2").unwrap(),
        vec![Node::Decl(Decl::Let {
            identifier: "n".to_string(),
            expression: Expr::Binary {
                op: Operator::Plus,
                lhs: lit(1),
                rhs: lit(2),
            },
        })]
    );
    match parse_source("let s = \"x") {
        Err(ShabaCompilerError::LexerError(e)) => {
            assert_eq!(e.error, LexingError::UnterminatedString)
        }
        other => panic!("unexpected {:?}", other),
    }
    match parse_source("let = 1") {
        Err(ShabaCompilerError::ParserError(e)) => assert_eq!(e.errors.len(), 1),
        other => panic!("unexpected {:?}", other),
    }
}

#[test]
fn compiler_error_from_each_stage() {
    let lexing = LexerError::new(
        LexingError::UnknownLexme('$'),
        SourceLocation::new(1, 1),
        SourceLocation::new(1, 2),
    );
    assert!(matches!(
        ShabaCompilerError::from(lexing),
        ShabaCompilerError::LexerError(e) if e == lexing
    ));
    assert!(matches!(
        ShabaCompilerError::from(DriverError::UnableToRead),
        ShabaCompilerError::DriverError(DriverError::UnableToRead)
    ));
    let parsing = ParserError::new(Vec::new(), Vec::new());
    assert!(matches!(
        ShabaCompilerError::from(parsing),
        ShabaCompilerError::ParserError(_)
    ));
}

#[test]
fn driver_error_messages() {
    assert_eq!(DriverError::MissingFileFlag.message(), "Missing `--file` flag");
    assert_eq!(DriverError::UnableToRead.message(), "Unable to read file");
}

#[test]
fn token_accessor_returns_kind() {
    let token = Token::new(
        TokenKind::Comma,
        SourceLocation::new(1, 1),
        SourceLocation::new(1, 2),
    );
    assert_eq!(*token.kind(), TokenKind::Comma);
}

#[test]
fn scanner_conditional_advance() {
    let tokens = lexer::tokenize("- x").unwrap();
    let mut scanner = Scanner::new(tokens.clone());
    assert_eq!(scanner.next_if_map(|t| t.as_keyword()), None);
    assert_eq!(scanner.next_if_map(|t| UnaryOp::from(t)), Some(UnaryOp::Minus));
    assert!(scanner.next_if(|t| t.as_keyword().is_some()).is_none());
    assert_eq!(
        scanner.next_if(|t| t.as_identifier().is_some()),
        Some(&tokens[1])
    );
    assert!(scanner.is_eof());
    assert_eq!(scanner.next_if_map(|t| t.as_identifier()), None);
}
