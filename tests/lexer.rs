use minicc::{LexError, Lexer, Token};

#[test]
fn test_next_token() {
    {
        let input = String::from(
            "1 + - / * ( ) = ! == != < > <= >= ; a b foo bar return if else while for",
        );
        let mut lexer = Lexer::new(input);
        assert_eq!(lexer.next(), Ok(Token::Integer(1)));
        assert_eq!(lexer.next(), Ok(Token::Plus));
        assert_eq!(lexer.next(), Ok(Token::Minus));
        assert_eq!(lexer.next(), Ok(Token::Slash));
        assert_eq!(lexer.next(), Ok(Token::Asterisk));
        assert_eq!(lexer.next(), Ok(Token::LParen));
        assert_eq!(lexer.next(), Ok(Token::RParen));
        assert_eq!(lexer.next(), Ok(Token::Assignment));
        assert_eq!(lexer.next(), Ok(Token::Not));
        assert_eq!(lexer.next(), Ok(Token::Eq));
        assert_eq!(lexer.next(), Ok(Token::NotEq));
        assert_eq!(lexer.next(), Ok(Token::Lt));
        assert_eq!(lexer.next(), Ok(Token::Gt));
        assert_eq!(lexer.next(), Ok(Token::LtEq));
        assert_eq!(lexer.next(), Ok(Token::GtEq));
        assert_eq!(lexer.next(), Ok(Token::SemiColon));
        assert_eq!(lexer.next(), Ok(Token::Identifier(String::from("a"))));
        assert_eq!(lexer.next(), Ok(Token::Identifier(String::from("b"))));
        assert_eq!(lexer.next(), Ok(Token::Identifier(String::from("foo"))));
        assert_eq!(lexer.next(), Ok(Token::Identifier(String::from("bar"))));
        assert_eq!(lexer.next(), Ok(Token::Return));
        assert_eq!(lexer.next(), Ok(Token::If));
        assert_eq!(lexer.next(), Ok(Token::Else));
        assert_eq!(lexer.next(), Ok(Token::While));
        assert_eq!(lexer.next(), Ok(Token::For));
        assert_eq!(lexer.next(), Ok(Token::Eof));
    }
    {
        let input = String::from("1 + 2");
        let mut lexer = Lexer::new(input);

        assert_eq!(lexer.next(), Ok(Token::Integer(1)));
        assert_eq!(lexer.next(), Ok(Token::Plus));
        assert_eq!(lexer.next(), Ok(Token::Integer(2)));
        assert_eq!(lexer.next(), Ok(Token::Eof));
    }

    {
        let input = String::from("5+20-4");
        let mut lexer = Lexer::new(input);

        assert_eq!(lexer.next(), Ok(Token::Integer(5)));
        assert_eq!(lexer.next(), Ok(Token::Plus));
        assert_eq!(lexer.next(), Ok(Token::Integer(20)));
        assert_eq!(lexer.next(), Ok(Token::Minus));
        assert_eq!(lexer.next(), Ok(Token::Integer(4)));
        assert_eq!(lexer.next(), Ok(Token::Eof));
    }
}

#[test]
fn eof_repeats_at_end_of_input() {
    let mut lexer = Lexer::new(String::from("  x  "));
    assert_eq!(lexer.next(), Ok(Token::Identifier(String::from("x"))));
    assert_eq!(lexer.next(), Ok(Token::Eof));
    assert_eq!(lexer.next(), Ok(Token::Eof));
    assert_eq!(lexer.next(), Ok(Token::Eof));
}

#[test]
fn empty_input_is_eof() {
    let mut lexer = Lexer::new(String::new());
    assert_eq!(lexer.next(), Ok(Token::Eof));
}

#[test]
fn longer_operator_wins() {
    let mut lexer = Lexer::new(String::from("a<=b==c!=d>=e=f"));
    let expected = vec![
        Token::Identifier(String::from("a")),
        Token::LtEq,
        Token::Identifier(String::from("b")),
        Token::Eq,
        Token::Identifier(String::from("c")),
        Token::NotEq,
        Token::Identifier(String::from("d")),
        Token::GtEq,
        Token::Identifier(String::from("e")),
        Token::Assignment,
        Token::Identifier(String::from("f")),
        Token::Eof,
    ];
    for t in expected {
        assert_eq!(lexer.next(), Ok(t));
    }
}

#[test]
fn braces_comma_and_ampersand() {
    let mut lexer = Lexer::new(String::from("{ f(a, &b); }"));
    let expected = vec![
        Token::LBrace,
        Token::Identifier(String::from("f")),
        Token::LParen,
        Token::Identifier(String::from("a")),
        Token::Comma,
        Token::Ampersand,
        Token::Identifier(String::from("b")),
        Token::RParen,
        Token::SemiColon,
        Token::RBrace,
        Token::Eof,
    ];
    for t in expected {
        assert_eq!(lexer.next(), Ok(t));
    }
}

#[test]
fn words_stop_at_non_lowercase() {
    let mut lexer = Lexer::new(String::from("ab12 returnx"));
    assert_eq!(lexer.next(), Ok(Token::Identifier(String::from("ab"))));
    assert_eq!(lexer.next(), Ok(Token::Integer(12)));
    assert_eq!(lexer.next(), Ok(Token::Identifier(String::from("returnx"))));
    assert_eq!(lexer.next(), Ok(Token::Eof));
}

#[test]
fn largest_integer_is_accepted() {
    let mut lexer = Lexer::new(String::from("2147483647"));
    assert_eq!(lexer.next(), Ok(Token::Integer(2147483647)));
}

#[test]
fn integer_past_i32_is_rejected() {
    let mut lexer = Lexer::new(String::from("  2147483648"));
    assert_eq!(lexer.next(), Err(LexError::IntegerTooLarge { position: 2 }));
}

#[test]
fn invalid_character_is_rejected() {
    let mut lexer = Lexer::new(String::from("a # b"));
    assert_eq!(lexer.next(), Ok(Token::Identifier(String::from("a"))));
    assert_eq!(lexer.next(), Err(LexError::InvalidCharacter { position: 2, ch: '#' }));
}

#[test]
fn uppercase_is_invalid() {
    let mut lexer = Lexer::new(String::from("Foo"));
    assert_eq!(lexer.next(), Err(LexError::InvalidCharacter { position: 0, ch: 'F' }));
}

#[test]
fn report_error_points_at_column() {
    let mut lexer = Lexer::new(String::from("a $"));
    assert_eq!(lexer.next(), Ok(Token::Identifier(String::from("a"))));
    assert_eq!(lexer.position(), 1);
    let msg = lexer.report_error("invalid token");
    assert_eq!(
        msg,
        String::from("\x1b[31merror\x1b[0m: invalid token\na $\n \x1b[33m^\x1b[0m\n")
    );
}

#[test]
fn error_leaves_cursor_on_the_token() {
    let mut lexer = Lexer::new(String::from("12  99999999999"));
    assert_eq!(lexer.next(), Ok(Token::Integer(12)));
    assert_eq!(lexer.next(), Err(LexError::IntegerTooLarge { position: 4 }));
    assert_eq!(lexer.position(), 4);
    assert_eq!(
        lexer.report_error("too large"),
        String::from("\x1b[31merror\x1b[0m: too large\n12  99999999999\n    \x1b[33m^\x1b[0m\n")
    );
}

#[test]
fn unicode_whitespace_is_skipped() {
    let mut lexer = Lexer::new(String::from("\u{a0}a\u{2003}\u{3000}1\u{85}"));
    assert_eq!(lexer.next(), Ok(Token::Identifier(String::from("a"))));
    assert_eq!(lexer.next(), Ok(Token::Integer(1)));
    assert_eq!(lexer.next(), Ok(Token::Eof));
}

#[test]
fn consume_char_stops_at_end() {
    let mut lexer = Lexer::new(String::from("ab"));
    lexer.consume_char();
    lexer.consume_char();
    assert_eq!(lexer.position(), 2);
    lexer.consume_char();
    assert_eq!(lexer.position(), 2);
    assert_eq!(lexer.peek_char(0), None);
}
