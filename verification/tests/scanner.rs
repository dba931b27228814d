use rapiere_lexer::{Scanner, TokenKind, TokenValue};
use rapiere_lexer::tokenizer::Tokenizer;
use rapiere_lexer::decode::decode_literal;

#[test]
fn scanner_scans_successive_tokens() {
    let input = b"foo: 42";
    let mut scanner = Scanner::new();
    let first = scanner.scan(input).unwrap().unwrap();
    assert_eq!(first.kind, TokenKind::Identifier);
    assert_eq!((first.line, first.column), (1, 1));
    let second = scanner.scan(input).unwrap().unwrap();
    assert_eq!(second.kind, TokenKind::Colon);
    assert_eq!((second.line, second.column), (1, 4));
    let third = scanner.scan(input).unwrap().unwrap();
    assert_eq!(third.kind, TokenKind::Literal);
    assert_eq!((third.line, third.column), (1, 6));
    assert_eq!(third.value, Some(TokenValue::Integer(42)));
    assert_eq!(scanner.scan(input).unwrap(), None);
}

#[test]
fn scanner_mark_and_rollback_rescan_the_same_token() {
    let input = b"a b c";
    let mut scanner = Scanner::new();
    let first = scanner.scan(input).unwrap().unwrap();
    assert_eq!(first.value, Some(TokenValue::String("a".to_owned())));
    scanner.mark_current_position();
    let second = scanner.scan(input).unwrap().unwrap();
    assert_eq!(second.value, Some(TokenValue::String("b".to_owned())));
    scanner.reset_to_mark();
    let again = scanner.scan(input).unwrap().unwrap();
    assert_eq!(again.value, Some(TokenValue::String("b".to_owned())));
    assert_eq!((again.line, again.column), (second.line, second.column));
}

#[test]
fn scanner_reset_returns_to_the_start() {
    let input = b"x y";
    let mut scanner = Scanner::new();
    scanner.scan(input).unwrap();
    scanner.scan(input).unwrap();
    scanner.reset();
    assert_eq!((scanner.line(), scanner.column()), (1, 1));
    let first = scanner.scan(input).unwrap().unwrap();
    assert_eq!(first.value, Some(TokenValue::String("x".to_owned())));
}

#[test]
fn scanner_stamps_positions_onto_errors() {
    let input = b"  0x";
    let mut scanner = Scanner::new();
    let err = scanner.scan(input).unwrap_err();
    assert_eq!(err.position(), (Some(1), Some(3)));
}

#[test]
fn tokenizer_classifies_windows() {
    let tokenizer = Tokenizer::new();
    assert!(matches!(
        tokenizer.tokenize(b"42 rest"),
        Ok((Some((TokenKind::Literal, 2)), 2))
    ));
    assert!(matches!(
        tokenizer.tokenize(b" x"),
        Ok((None, 1))
    ));
    assert!(matches!(
        tokenizer.tokenize(b">= 1"),
        Ok((Some((TokenKind::GreaterThanEquals, 2)), 2))
    ));
    assert!(matches!(
        tokenizer.tokenize(b"\"ab\"\"cd\" rest"),
        Ok((Some((TokenKind::Literal, 8)), 8))
    ));
    assert!(matches!(
        tokenizer.tokenize(b"!"),
        Err(rapiere_lexer::Error::UnrecognizedToken(None))
    ));
}

#[test]
fn tokenizer_errors_carry_no_position() {
    let tokenizer = Tokenizer::new();
    let err = tokenizer.tokenize(b"0x").unwrap_err();
    assert_eq!(err.position(), (None, None));
}

#[test]
fn set_position_keeps_the_variant() {
    let mut err = rapiere_lexer::Error::BadNumber(None);
    assert_eq!(err.position(), (None, None));
    err.set_position(4, 9);
    assert!(matches!(
        err,
        rapiere_lexer::Error::BadNumber(Some((4, 9)))
    ));
    assert_eq!(err.position(), (Some(4), Some(9)));
}

#[test]
fn decode_handles_defensive_fallbacks() {
    assert_eq!(decode_literal(b"1_000"), TokenValue::Integer(1000));
    assert_eq!(decode_literal(b"0x2_A"), TokenValue::Integer(42));
    assert_eq!(
        decode_literal(b"0xffffffffffffffffff"),
        TokenValue::String("0xffffffffffffffffff".to_owned())
    );
    assert_eq!(
        decode_literal(b"not-a-number"),
        TokenValue::String("not-a-number".to_owned())
    );
    assert_eq!(
        decode_literal(b"1_0E2"),
        TokenValue::Float("10e2".to_owned())
    );
}

#[test]
fn error_messages_render_position_or_unknown() {
    let err = rapiere_lexer::Error::BadNumber(Some((3, 17)));
    assert_eq!(
        err.message(),
        "lexer error occured: bad number format (line: 3, column: 17)"
    );
    let err = rapiere_lexer::Error::UnrecognizedToken(None);
    assert_eq!(
        err.message(),
        "lexer error occured: unrecognized token (line: unknown, column: unknown)"
    );
}

#[test]
fn token_kinds_render_their_names() {
    assert_eq!(TokenKind::LeftParenthesis.name(), "LeftParenthesis");
    assert_eq!(TokenKind::GreaterThanEquals.name(), "GreaterThanEquals");
    assert_eq!(TokenKind::EndOfInput.name(), "EndOfInput");
}

#[test]
fn tokens_render_their_payloads() {
    let mut lexer = rapiere_lexer::Lexer::new(b"foo -42 3.5 \"hi\"");
    assert_eq!(lexer.render(), "Lexer(line = 1, column = 1, eof = false)");
    assert_eq!(lexer.next_token().unwrap().unwrap().render(), "Token::ID(foo)");
    assert_eq!(
        lexer.next_token().unwrap().unwrap().render(),
        "Token::Integer(-42)"
    );
    assert_eq!(
        lexer.next_token().unwrap().unwrap().render(),
        "Token::Float(3.5)"
    );
    assert_eq!(
        lexer.next_token().unwrap().unwrap().render(),
        "Token::String(hi)"
    );
    assert_eq!(
        lexer.next_token().unwrap().unwrap().render(),
        "Token::EndOfInput"
    );
    assert_eq!(lexer.render(), "Lexer(line = 1, column = 17, eof = true)");
}
