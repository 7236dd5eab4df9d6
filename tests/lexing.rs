use shaba::lexer::{
    self,
    error::{LexerError, LexingError},
    source::Source,
    token::{Keyword, Literal, SourceLocation, Token, TokenKind},
};

fn kinds(source: &str) -> Vec<TokenKind> {
    lexer::tokenize(source)
        .unwrap()
        .into_iter()
        .map(|t| t.kind)
        .collect()
}

#[test]
fn positions_of_greater_than_eq_on_first_line() {
    let result = lexer::tokenize("18 >= 18").unwrap();
    let expected = vec![
        Token::new(
            Literal::Int(18).into(),
            SourceLocation::new(1, 1),
            SourceLocation::new(1, 3),
        ),
        Token::new(
            TokenKind::GreaterThanEq,
            SourceLocation::new(1, 4),
            SourceLocation::new(1, 6),
        ),
        Token::new(
            Literal::Int(18).into(),
            SourceLocation::new(1, 7),
            SourceLocation::new(1, 9),
        ),
    ];
    assert_eq!(result, expected);
}

#[test]
fn unterminated_string_runs_to_end_of_input() {
    let result = lexer::tokenize("let person = \"Bob").unwrap_err();
    let expected = LexerError::new(
        LexingError::UnterminatedString,
        SourceLocation::new(1, 14),
        SourceLocation::new(1, 18),
    );
    assert_eq!(result, expected);
}

#[test]
fn unknown_character_covers_one_column() {
    let result = lexer::tokenize("let x = 1 @ 2").unwrap_err();
    let expected = LexerError::new(
        LexingError::UnknownLexme('@'),
        SourceLocation::new(1, 11),
        SourceLocation::new(1, 12),
    );
    assert_eq!(result, expected);
}

#[test]
fn comment_contributes_no_tokens() {
    assert_eq!(
        kinds("// note\nlet x = 1"),
        vec![
            TokenKind::Keyword(Keyword::Let),
            TokenKind::Identifier(String::from("x")),
            TokenKind::Eq,
            TokenKind::Literal(Literal::Int(1)),
        ]
    );
}

#[test]
fn comment_at_end_of_input_without_newline() {
    assert_eq!(kinds("1 // trailing"), vec![TokenKind::Literal(Literal::Int(1))]);
}

#[test]
fn empty_and_blank_inputs_have_no_tokens() {
    assert_eq!(kinds(""), Vec::<TokenKind>::new());
    assert_eq!(kinds("  \n\t \r\n"), Vec::<TokenKind>::new());
}

#[test]
fn single_slash_is_an_operator() {
    assert_eq!(
        kinds("6 / 3"),
        vec![
            TokenKind::Literal(Literal::Int(6)),
            TokenKind::Slash,
            TokenKind::Literal(Literal::Int(3)),
        ]
    );
}

#[test]
fn every_punctuation_character() {
    assert_eq!(
        kinds("= + - * / > < { } ( ) [ ] , ; : . ? !"),
        vec![
            TokenKind::Eq,
            TokenKind::Plus,
            TokenKind::Minus,
            TokenKind::Asterisk,
            TokenKind::Slash,
            TokenKind::GreaterThan,
            TokenKind::LessThan,
            TokenKind::OpenBrace,
            TokenKind::CloseBrace,
            TokenKind::OpenParen,
            TokenKind::CloseParen,
            TokenKind::OpenBracket,
            TokenKind::CloseBracket,
            TokenKind::Comma,
            TokenKind::Semicolon,
            TokenKind::Colon,
            TokenKind::Period,
            TokenKind::QuestionMark,
            TokenKind::Negate,
        ]
    );
}

#[test]
fn two_character_operators_need_adjacent_equals() {
    assert_eq!(
        kinds("== != <= >= = = ! ="),
        vec![
            TokenKind::EqEq,
            TokenKind::NotEq,
            TokenKind::LessThanEq,
            TokenKind::GreaterThanEq,
            TokenKind::Eq,
            TokenKind::Eq,
            TokenKind::Negate,
            TokenKind::Eq,
        ]
    );
}

#[test]
fn keywords_booleans_and_identifiers() {
    assert_eq!(
        kinds("let fn if else true false lets _x9 Fn"),
        vec![
            TokenKind::Keyword(Keyword::Let),
            TokenKind::Keyword(Keyword::Fn),
            TokenKind::Keyword(Keyword::If),
            TokenKind::Keyword(Keyword::Else),
            TokenKind::Literal(Literal::Bool(true)),
            TokenKind::Literal(Literal::Bool(false)),
            TokenKind::Identifier(String::from("lets")),
            TokenKind::Identifier(String::from("_x9")),
            TokenKind::Identifier(String::from("Fn")),
        ]
    );
}

#[test]
fn digits_then_letters_split_into_two_tokens() {
    assert_eq!(
        kinds("12ab"),
        vec![
            TokenKind::Literal(Literal::Int(12)),
            TokenKind::Identifier(String::from("ab")),
        ]
    );
}

#[test]
fn largest_integer_literal() {
    assert_eq!(
        kinds("2147483647"),
        vec![TokenKind::Literal(Literal::Int(2147483647))]
    );
}

#[test]
fn integer_literal_overflow_is_an_error() {
    let result = lexer::tokenize("x = 2147483648").unwrap_err();
    let expected = LexerError::new(
        LexingError::IntegerOverflow,
        SourceLocation::new(1, 5),
        SourceLocation::new(1, 15),
    );
    assert_eq!(result, expected);
}

#[test]
fn string_literal_may_span_lines() {
    let result = lexer::tokenize("\"a\nb\" 1").unwrap();
    let expected = vec![
        Token::new(
            Literal::String(String::from("a\nb")).into(),
            SourceLocation::new(1, 1),
            SourceLocation::new(2, 3),
        ),
        Token::new(
            Literal::Int(1).into(),
            SourceLocation::new(2, 4),
            SourceLocation::new(2, 5),
        ),
    ];
    assert_eq!(result, expected);
}

#[test]
fn first_error_stops_tokenizing() {
    let result = lexer::tokenize("# \"open").unwrap_err();
    assert_eq!(result.error, LexingError::UnknownLexme('#'));
}

#[test]
fn keyword_from_str() {
    assert_eq!(Keyword::from_str("let"), Some(Keyword::Let));
    assert_eq!(Keyword::from_str("fn"), Some(Keyword::Fn));
    assert_eq!(Keyword::from_str("if"), Some(Keyword::If));
    assert_eq!(Keyword::from_str("else"), Some(Keyword::Else));
    assert_eq!(Keyword::from_str("le"), None);
    assert_eq!(Keyword::from_str(""), None);
}

#[test]
fn literal_as_bool() {
    assert_eq!(Literal::as_bool("true"), Some(Literal::Bool(true)));
    assert_eq!(Literal::as_bool("false"), Some(Literal::Bool(false)));
    assert_eq!(Literal::as_bool("True"), None);
}

#[test]
fn token_kind_from_char() {
    assert_eq!(TokenKind::from_char('?'), Some(TokenKind::QuestionMark));
    assert_eq!(TokenKind::from_char('a'), None);
}

#[test]
fn source_location_accessors() {
    let location = SourceLocation::new(3, 7);
    assert_eq!(location.line(), 3);
    assert_eq!(location.column(), 7);
}

#[test]
fn source_tracks_lines_and_columns() {
    let mut source = Source::new("ab\ncd");
    assert_eq!(source.location(), SourceLocation::new(1, 1));
    assert_eq!(source.take_while(|c| c != '\n'), Some(String::from("ab")));
    assert_eq!(source.location(), SourceLocation::new(1, 3));
    assert_eq!(source.next(), Some('\n'));
    assert_eq!(source.location(), SourceLocation::new(2, 1));
    assert_eq!(source.peek(), Some('c'));
    assert_eq!(source.peek_next(), Some('d'));
    assert_eq!(source.next_if(|c| c == 'x'), None);
    assert_eq!(source.next_map(|c| if c == 'c' { Some(1) } else { None }), Some(1));
    assert_eq!(source.location(), SourceLocation::new(2, 2));
    source.advance_while(|c| c == 'd');
    assert!(source.is_eof());
    assert_eq!(source.peek(), None);
    assert_eq!(source.next(), None);
}

#[test]
fn source_skips_comments_and_whitespace() {
    let mut source = Source::new("  // one\n\t// two\n  x");
    source.advance_to_next_token();
    assert_eq!(source.location(), SourceLocation::new(3, 3));
    assert_eq!(source.peek(), Some('x'));
}

#[test]
fn source_advance_past_next() {
    let mut source = Source::new("abc;def");
    source.advance_past_next(';');
    assert_eq!(source.peek(), Some('d'));
    source.advance_past_next(';');
    assert!(source.is_eof());
}

#[test]
fn take_while_with_no_match_consumes_nothing() {
    let mut source = Source::new("abc");
    assert_eq!(source.take_while(|c| c.is_ascii_digit()), None);
    assert_eq!(source.location(), SourceLocation::new(1, 1));
}
