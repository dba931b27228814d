use rapiere_lexer::{Lexer, Token, TokenKind, TokenValue};

fn collect_tokens(input: &[u8]) -> Vec<Token> {
    let mut lexer = Lexer::new(input);
    let mut tokens = Vec::new();
    loop {
        match lexer.next_token() {
            Ok(Some(token)) => tokens.push(token),
            Ok(None) => break,
            Err(err) => panic!("unexpected lexer error: {:?}", err),
        }
    }
    tokens
}

#[test]
fn it_read_an_input_of_tokens() {
    // `3.1415` runs directly into `true`: a numeric span ended by an
    // identifier-start byte is a BadNumber, so scanning halts there.
    let input = b" ():,.-=!=>>=<<=42\"hello world\"3.1415truefalsenullANDORNOTfoo_bar";
    let expected_tokens = vec![
        (TokenKind::LeftParenthesis, None),
        (TokenKind::RightParenthesis, None),
        (TokenKind::Colon, None),
        (TokenKind::Comma, None),
        (TokenKind::Dot, None),
        (TokenKind::Minus, None),
        (TokenKind::Equals, None),
        (TokenKind::NotEquals, None),
        (TokenKind::GreaterThan, None),
        (TokenKind::GreaterThanEquals, None),
        (TokenKind::LesserThan, None),
        (TokenKind::LesserThanEquals, None),
        (TokenKind::Literal, Some(TokenValue::Integer(42))),
        (
            TokenKind::Literal,
            Some(TokenValue::String("hello world".to_owned())),
        ),
    ];

    let mut lexer = Lexer::new(input);

    for (expected_kind, expected_value) in expected_tokens {
        let token = lexer.next_token();
        assert!(token.is_ok());

        let token = token.unwrap();
        assert!(token.is_some());

        let token = token.unwrap();
        assert_eq!(token.kind, expected_kind);
        assert_eq!(token.value, expected_value);
    }

    let err = lexer.next_token().unwrap_err();
    assert!(matches!(err, rapiere_lexer::Error::BadNumber(Some((1, 32)))));
}

#[test]
fn it_read_an_input_of_separated_tokens() {
    let input = b"3.1415 true false null AND OR NOT foo_bar";
    let expected_tokens = vec![
        (TokenKind::Literal, Some(TokenValue::Float("3.1415".to_owned()))),
        (TokenKind::True, None),
        (TokenKind::False, None),
        (TokenKind::Null, None),
        (TokenKind::And, None),
        (TokenKind::Or, None),
        (TokenKind::Not, None),
        (
            TokenKind::Identifier,
            Some(TokenValue::String("foo_bar".to_owned())),
        ),
        (TokenKind::EndOfInput, None),
    ];

    let mut lexer = Lexer::new(input);
    for (expected_kind, expected_value) in expected_tokens {
        let token = lexer.next_token().unwrap().unwrap();
        assert_eq!(token.kind, expected_kind);
        assert_eq!(token.value, expected_value);
    }
    assert_eq!(lexer.next_token().unwrap(), None);
}

#[test]
fn it_parses_single_tokens() {
    let cases: Vec<(&[u8], TokenKind, Option<TokenValue>)> = vec![
        (b"AND", TokenKind::And, None),
        (b"OR", TokenKind::Or, None),
        (b"NOT", TokenKind::Not, None),
        (
            b"foo_bar",
            TokenKind::Identifier,
            Some(TokenValue::String("foo_bar".to_owned())),
        ),
        (b"(", TokenKind::LeftParenthesis, None),
        (b")", TokenKind::RightParenthesis, None),
        (b":", TokenKind::Colon, None),
        (b",", TokenKind::Comma, None),
        (b".", TokenKind::Dot, None),
        (b"-", TokenKind::Minus, None),
        (b"=", TokenKind::Equals, None),
        (b"!=", TokenKind::NotEquals, None),
        (b">", TokenKind::GreaterThan, None),
        (b">=", TokenKind::GreaterThanEquals, None),
        (b"<", TokenKind::LesserThan, None),
        (b"<=", TokenKind::LesserThanEquals, None),
        (
            b"3.1415",
            TokenKind::Literal,
            Some(TokenValue::Float("3.1415".to_owned())),
        ),
        (
            b"-1.618",
            TokenKind::Literal,
            Some(TokenValue::Float("-1.618".to_owned())),
        ),
        (b"42", TokenKind::Literal, Some(TokenValue::Integer(42))),
        (b"-12", TokenKind::Literal, Some(TokenValue::Integer(-12))),
        (b"0x2a", TokenKind::Literal, Some(TokenValue::Integer(42))),
        (b"0x2A", TokenKind::Literal, Some(TokenValue::Integer(42))),
        (b"0X2a", TokenKind::Literal, Some(TokenValue::Integer(42))),
        (b"0X2A", TokenKind::Literal, Some(TokenValue::Integer(42))),
        (
            b"\"hello world\"",
            TokenKind::Literal,
            Some(TokenValue::String("hello world".to_owned())),
        ),
        (b"true", TokenKind::True, None),
        (b"false", TokenKind::False, None),
        (b"null", TokenKind::Null, None),
        (b"", TokenKind::EndOfInput, None),
    ];

    for (input, expected_kind, expected_value) in cases {
        let mut lexer = Lexer::new(input);
        let token = lexer.next_token();
        assert!(token.is_ok(), "input {:?}", input);
        let token = token.unwrap();
        assert!(token.is_some(), "input {:?}", input);
        let token = token.unwrap();
        assert_eq!(token.kind, expected_kind, "input {:?}", input);
        assert_eq!(token.value, expected_value, "input {:?}", input);
    }
}

#[test]
fn whitespace_only_input_yields_end_of_input_alone() {
    for input in [&b" "[..], b"\t", b"\n", b"\r", b"   \t\r\n", b"\x0c"] {
        let mut lexer = Lexer::new(input);
        let first = lexer.next_token().unwrap().unwrap();
        assert_eq!(first.kind, TokenKind::EndOfInput);
        assert_eq!(first.length, 0);
        assert!(first.value.is_none());
        assert_eq!(lexer.next_token().unwrap(), None);
    }
}

#[test]
fn end_of_input_is_emitted_exactly_once() {
    let mut lexer = Lexer::new(b"42");
    assert_eq!(
        lexer.next_token().unwrap().unwrap().kind,
        TokenKind::Literal
    );
    assert_eq!(
        lexer.next_token().unwrap().unwrap().kind,
        TokenKind::EndOfInput
    );
    for _ in 0..5 {
        assert_eq!(lexer.next_token().unwrap(), None);
    }
    lexer.reset(b"7");
    let token = lexer.next_token().unwrap().unwrap();
    assert_eq!(token.kind, TokenKind::Literal);
    assert_eq!(token.value, Some(TokenValue::Integer(7)));
    assert_eq!(
        lexer.next_token().unwrap().unwrap().kind,
        TokenKind::EndOfInput
    );
    assert_eq!(lexer.next_token().unwrap(), None);
}

#[test]
fn scientific_notation_decodes_the_same_for_either_exponent_case() {
    let mut lower = Lexer::new(b"1e30");
    let mut upper = Lexer::new(b"1E30");
    let a = lower.next_token().unwrap().unwrap();
    let b = upper.next_token().unwrap().unwrap();
    assert_eq!(a.kind, TokenKind::Literal);
    assert_eq!(a.value, b.value);
    match a.value {
        Some(TokenValue::Float(text)) => {
            assert_eq!(text, "1e30");
            assert_eq!(text.parse::<f32>().unwrap(), 1e30f32);
        }
        other => panic!("expected a float payload, got {:?}", other),
    }
}

#[test]
fn float_literals_round_trip_within_representation_tolerance() {
    let cases: Vec<(&[u8], f32)> = vec![
        (b"3.1415", 3.1415),
        (b"-1.618", -1.618),
        (b"1e30", 1e30),
        (b"1E30", 1e30),
        (b"6.62607015e-34", 6.62607015e-34),
        (b"6.62607015E-34", 6.62607015e-34),
        (b".5", 0.5),
        (b"1_0.5", 10.5),
        (b"2.", 2.0),
    ];
    for (input, expected) in cases {
        let mut lexer = Lexer::new(input);
        let token = lexer.next_token().unwrap().unwrap();
        assert_eq!(token.kind, TokenKind::Literal, "input {:?}", input);
        match token.value {
            Some(TokenValue::Float(text)) => {
                let parsed = text.parse::<f32>().unwrap();
                assert_eq!(parsed, expected, "input {:?}", input);
            }
            other => panic!("expected a float payload for {:?}, got {:?}", input, other),
        }
    }
}

#[test]
fn integer_literals_round_trip_exactly() {
    let cases: Vec<(&[u8], i64)> = vec![
        (b"0", 0),
        (b"42", 42),
        (b"-12", -12),
        (b"1_000", 1000),
        (b"-1_2_3", -123),
        (b"0x2A", 42),
        (b"0Xff", 255),
        (b"0x7_F", 127),
        (b"0x7fffffffffffffff", i64::MAX),
        (b"9223372036854775807", i64::MAX),
        (b"-9223372036854775808", i64::MIN),
    ];
    for (input, expected) in cases {
        let mut lexer = Lexer::new(input);
        let token = lexer.next_token().unwrap().unwrap();
        assert_eq!(token.kind, TokenKind::Literal, "input {:?}", input);
        assert_eq!(
            token.value,
            Some(TokenValue::Integer(expected)),
            "input {:?}",
            input
        );
    }
}

#[test]
fn oversized_integers_fall_back_to_floats() {
    let mut lexer = Lexer::new(b"9223372036854775808");
    let token = lexer.next_token().unwrap().unwrap();
    match token.value {
        Some(TokenValue::Float(text)) => {
            assert_eq!(text, "9223372036854775808");
            assert_eq!(text.parse::<f32>().unwrap(), 9223372036854775808f32);
        }
        other => panic!("expected a float payload, got {:?}", other),
    }
}

#[test]
fn doubled_quotes_collapse_to_single_quotes() {
    let cases: Vec<(&[u8], &str)> = vec![
        (b"\"\"", ""),
        (b"\"a\"\"b\"", "a\"b"),
        (b"\"\"\"\"", "\""),
        (b"\"say \"\"hi\"\" twice\"", "say \"hi\" twice"),
    ];
    for (input, expected) in cases {
        let mut lexer = Lexer::new(input);
        let token = lexer.next_token().unwrap().unwrap();
        assert_eq!(token.kind, TokenKind::Literal, "input {:?}", input);
        assert_eq!(
            token.value,
            Some(TokenValue::String(expected.to_owned())),
            "input {:?}",
            input
        );
    }
}

#[test]
fn token_positions_follow_line_feeds() {
    let tokens = collect_tokens(b"a\nbb\nccc dd");
    assert_eq!(tokens.len(), 5);
    assert_eq!((tokens[0].line, tokens[0].column), (1, 1));
    assert_eq!((tokens[1].line, tokens[1].column), (2, 1));
    assert_eq!((tokens[2].line, tokens[2].column), (3, 1));
    assert_eq!((tokens[3].line, tokens[3].column), (3, 5));
    assert_eq!(tokens[4].kind, TokenKind::EndOfInput);
    assert_eq!((tokens[4].line, tokens[4].column), (3, 7));
}

#[test]
fn error_positions_follow_line_feeds() {
    let mut lexer = Lexer::new(b"\n\n  @");
    let err = lexer.next_token().unwrap_err();
    assert!(matches!(
        err,
        rapiere_lexer::Error::UnrecognizedToken(Some((3, 3)))
    ));
    assert_eq!(err.position(), (Some(3), Some(3)));
}

#[test]
fn truncated_hex_literal_reports_its_position() {
    let mut lexer = Lexer::new(b"0x");
    let err = lexer.next_token().unwrap_err();
    assert!(matches!(
        err,
        rapiere_lexer::Error::MalformatedHexNumber(Some((1, 1)))
    ));
}

#[test]
fn unterminated_string_literal_is_an_error() {
    let mut lexer = Lexer::new(b"\"unterminated");
    let err = lexer.next_token().unwrap_err();
    assert!(matches!(
        err,
        rapiere_lexer::Error::UnterminatedStringLiteral(Some((1, 1)))
    ));
}

#[test]
fn misplaced_separators_are_bad_numbers() {
    for input in [&b"1_"[..], b"1__2", b"_1" /* identifier, not number */] {
        let mut lexer = Lexer::new(input);
        let result = lexer.next_token();
        if input == b"_1" {
            let token = result.unwrap().unwrap();
            assert_eq!(token.kind, TokenKind::Identifier);
        } else {
            assert!(matches!(
                result.unwrap_err(),
                rapiere_lexer::Error::BadNumber(Some(_))
            ));
        }
    }
}

#[test]
fn digits_running_into_letters_are_bad_numbers() {
    for input in [&b"1abc"[..], b"0x2Ag", b"1e5x", b"1.5x", b".5abc"] {
        let mut lexer = Lexer::new(input);
        let err = lexer.next_token().unwrap_err();
        assert!(
            matches!(
                err,
                rapiere_lexer::Error::BadNumber(Some(_))
                    | rapiere_lexer::Error::MalformatedHexNumber(Some(_))
            ),
            "input {:?}",
            input
        );
    }
}

#[test]
fn exponent_without_digits_is_a_bad_number() {
    for input in [&b"1e"[..], b"1e+", b"1.5e", b"2E-"] {
        let mut lexer = Lexer::new(input);
        assert!(
            matches!(
                lexer.next_token().unwrap_err(),
                rapiere_lexer::Error::BadNumber(Some(_))
            ),
            "input {:?}",
            input
        );
    }
}

#[test]
fn bare_bang_is_unrecognized() {
    for input in [&b"!"[..], b"!x", b"@"] {
        let mut lexer = Lexer::new(input);
        assert!(matches!(
            lexer.next_token().unwrap_err(),
            rapiere_lexer::Error::UnrecognizedToken(Some(_))
        ));
    }
}

#[test]
fn identifiers_decode_through_utf8() {
    let input = "héllo_wörld".as_bytes();
    let mut lexer = Lexer::new(input);
    let token = lexer.next_token().unwrap().unwrap();
    assert_eq!(token.kind, TokenKind::Identifier);
    assert_eq!(
        token.value,
        Some(TokenValue::String("héllo_wörld".to_owned()))
    );

    let mut lossy = Lexer::new(&[0xFF]);
    let token = lossy.next_token().unwrap().unwrap();
    assert_eq!(token.kind, TokenKind::Identifier);
    assert_eq!(
        token.value,
        Some(TokenValue::String("\u{FFFD}".to_owned()))
    );
}

#[test]
fn keywords_are_whole_words_not_prefixes() {
    for (input, expected) in [
        (&b"ANDx"[..], "ANDx"),
        (b"ORbit", "ORbit"),
        (b"NOTE", "NOTE"),
        (b"trueX", "trueX"),
        (b"falsehood", "falsehood"),
        (b"nullable", "nullable"),
    ] {
        let tokens = collect_tokens(input);
        assert_eq!(tokens.len(), 2, "input {:?}", input);
        assert_eq!(tokens[0].kind, TokenKind::Identifier, "input {:?}", input);
        assert_eq!(
            tokens[0].value,
            Some(TokenValue::String(expected.to_owned())),
            "input {:?}",
            input
        );
        assert_eq!(tokens[1].kind, TokenKind::EndOfInput);
    }

    // a keyword ended by a non-identifier byte still stands on its own
    let tokens = collect_tokens(b"AND(true)");
    assert_eq!(tokens[0].kind, TokenKind::And);
    assert_eq!(tokens[1].kind, TokenKind::LeftParenthesis);
    assert_eq!(tokens[2].kind, TokenKind::True);
    assert_eq!(tokens[3].kind, TokenKind::RightParenthesis);
    assert_eq!(tokens[4].kind, TokenKind::EndOfInput);
}

#[test]
fn minus_before_digit_starts_a_negative_literal() {
    let tokens = collect_tokens(b"-12");
    assert_eq!(tokens.len(), 2);
    assert_eq!(tokens[0].kind, TokenKind::Literal);
    assert_eq!(tokens[0].value, Some(TokenValue::Integer(-12)));

    let tokens = collect_tokens(b"- 12");
    assert_eq!(tokens[0].kind, TokenKind::Minus);
    assert_eq!(tokens[1].value, Some(TokenValue::Integer(12)));
}

#[test]
fn token_equality_ignores_position_and_length() {
    let a = Token::new(TokenKind::Literal, 1, 1, 2).with_value(TokenValue::Integer(42));
    let b = Token::new(TokenKind::Literal, 7, 3, 4).with_value(TokenValue::Integer(42));
    assert_eq!(a, b);
    let c = Token::new(TokenKind::Literal, 1, 1, 2).with_value(TokenValue::Integer(41));
    assert_ne!(a, c);
    let d = Token::new(TokenKind::Minus, 1, 1, 1);
    let e = Token::new(TokenKind::Minus, 9, 9, 1);
    assert_eq!(d, e);
    assert_ne!(d, a);
}

#[test]
fn lexer_reports_line_and_column() {
    let mut lexer = Lexer::new(b"a\nb");
    assert_eq!((lexer.line(), lexer.column()), (1, 1));
    lexer.next_token().unwrap();
    assert_eq!((lexer.line(), lexer.column()), (1, 2));
    lexer.next_token().unwrap();
    assert_eq!((lexer.line(), lexer.column()), (2, 2));
}
