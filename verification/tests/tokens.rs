use lox::scanner::Scanner;
use lox::tokens::{with_payload, Decimal, Token, TokenType};

#[test]
fn token_holds_what_it_was_made_of() {
    let token = Token::new(TokenType::Identifier("answer"), "answer", 42);
    assert_eq!(token.which, TokenType::Identifier("answer"));
    assert_eq!(token.category(), &TokenType::Identifier("answer"));
    assert_eq!(token.lexeme(), "answer");
    assert_eq!(token.line(), 42);
}

#[test]
fn token_rendering_names_the_category_and_the_line() {
    assert_eq!(Token::new(TokenType::LeftParen, "(", 1).render(), "LeftParen at line 1");
    assert_eq!(Token::new(TokenType::BangEqual, "!=", 12).render(), "BangEqual at line 12");
    assert_eq!(Token::new(TokenType::While, "while", 100).render(), "While at line 100");
    assert_eq!(Token::new(TokenType::EOF, "", 7).render(), "EOF at line 7");
}

#[test]
fn token_rendering_quotes_text_payloads() {
    assert_eq!(
        Token::new(TokenType::Identifier("foo"), "foo", 3).render(),
        "Identifier(\"foo\") at line 3"
    );
    assert_eq!(
        Token::new(TokenType::String("a\nb\t\"c\\"), "", 2).render(),
        "String(\"a\\nb\\t\\\"c\\\\\") at line 2"
    );
    let tokens = Scanner::new("\"one\ntwo\"").scan_tokens().unwrap();
    assert_eq!(tokens[0].render(), "String(\"one\\ntwo\") at line 2");
    assert_eq!(tokens[1].render(), "EOF at line 2");
}

#[test]
fn token_rendering_writes_numbers_as_written() {
    let tokens = Scanner::new("12.34 423298 007.50").scan_tokens().unwrap();
    assert_eq!(tokens[0].render(), "Number(12.34) at line 1");
    assert_eq!(tokens[1].render(), "Number(423298) at line 1");
    assert_eq!(tokens[2].render(), "Number(007.50) at line 1");
}

#[test]
fn every_category_has_its_name() {
    let plain = [
        (TokenType::LeftParen, "LeftParen"),
        (TokenType::RightParen, "RightParen"),
        (TokenType::LeftBrace, "LeftBrace"),
        (TokenType::RightBrace, "RightBrace"),
        (TokenType::Comma, "Comma"),
        (TokenType::Dot, "Dot"),
        (TokenType::Minus, "Minus"),
        (TokenType::Plus, "Plus"),
        (TokenType::Semi, "Semi"),
        (TokenType::Slash, "Slash"),
        (TokenType::Star, "Star"),
        (TokenType::Bang, "Bang"),
        (TokenType::BangEqual, "BangEqual"),
        (TokenType::Equal, "Equal"),
        (TokenType::EqualEqual, "EqualEqual"),
        (TokenType::Greater, "Greater"),
        (TokenType::GreaterEqual, "GreaterEqual"),
        (TokenType::Less, "Less"),
        (TokenType::LessEqual, "LessEqual"),
        (TokenType::And, "And"),
        (TokenType::Class, "Class"),
        (TokenType::Else, "Else"),
        (TokenType::False, "False"),
        (TokenType::Fun, "Fun"),
        (TokenType::For, "For"),
        (TokenType::If, "If"),
        (TokenType::Nil, "Nil"),
        (TokenType::Or, "Or"),
        (TokenType::Print, "Print"),
        (TokenType::Return, "Return"),
        (TokenType::Super, "Super"),
        (TokenType::This, "This"),
        (TokenType::True, "True"),
        (TokenType::Var, "Var"),
        (TokenType::While, "While"),
        (TokenType::EOF, "EOF"),
    ];
    for (which, name) in plain {
        assert_eq!(which.render(), name);
        assert_eq!(which.render(), format!("{:?}", which));
    }
    let text = [TokenType::Identifier("x_1"), TokenType::String("it's \"x\"\u{7f}\u{e9}")];
    for which in text {
        assert_eq!(which.render(), format!("{:?}", which));
    }
}

#[test]
fn payload_goes_in_parentheses() {
    assert_eq!(with_payload("Number", "1.5"), "Number(1.5)");
    assert_eq!(with_payload("", ""), "()");
}

#[test]
fn decimal_takes_digits_only() {
    let literal = Decimal::new(vec![1, 0], vec![0, 9]).unwrap();
    assert_eq!(literal.whole(), &[1, 0]);
    assert_eq!(literal.fraction(), &[0, 9]);
    assert_eq!(literal.render(), "10.09");
    assert_eq!(literal.clone(), literal);
    assert_eq!(Decimal::new(vec![0], vec![]).unwrap().render(), "0");
    assert_eq!(Decimal::new(vec![], vec![]), None);
    assert_eq!(Decimal::new(vec![], vec![1]), None);
    assert_eq!(Decimal::new(vec![10], vec![]), None);
    assert_eq!(Decimal::new(vec![1], vec![2, 255]), None);
}
