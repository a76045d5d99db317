use lox::errors::LoxError;
use lox::scanner::{is_alpha, is_alpha_numeric, is_digit, Scanner};
use lox::tokens::TokenType;

/// The machine number of a number token: the first digit, then each further digit of the
/// integer part multiplied in, then each digit of the fraction weighted by a power of ten
/// that is divided down digit by digit.
fn number_of(which: &TokenType) -> Option<f64> {
    match which {
        TokenType::Number(literal) => {
            let mut number = 0.0;
            for digit in literal.whole() {
                number *= 10.0;
                number += f64::from(*digit);
            }
            let mut weight = 0.1;
            for digit in literal.fraction() {
                number += f64::from(*digit) * weight;
                weight /= 10.0;
            }
            Some(number)
        }
        _ => None,
    }
}

#[test]
fn test_empty() {
    let s = Scanner::new("");
    let tokens = s.scan_tokens().unwrap();
    assert_eq!(tokens.len(), 1);
    assert_eq!(tokens[0].which, TokenType::EOF);
}

#[test]
fn test_comments() {
    let s = Scanner::new("// hello world");
    let tokens = s.scan_tokens().unwrap();
    assert_eq!(tokens.len(), 1);
    assert_eq!(tokens[0].which, TokenType::EOF);
}

#[test]
fn test_empty_multilines() {
    let s = Scanner::new(
        r#"// hello world

    "#,
    );

    let tokens = s.scan_tokens().unwrap();
    assert_eq!(tokens.len(), 1);
    assert_eq!(tokens[0].which, TokenType::EOF);
}

#[test]
fn test_multines() {
    let s = Scanner::new(
        r#"
    {} // inline comment {}
    /;*
"#,
    );

    let tokens = s.scan_tokens().unwrap();
    assert_eq!(tokens.len(), 6);
    assert_eq!(tokens[0].which, TokenType::LeftBrace);
    assert_eq!(tokens[1].which, TokenType::RightBrace);
    assert_eq!(tokens[2].which, TokenType::Slash);
    assert_eq!(tokens[3].which, TokenType::Semi);
    assert_eq!(tokens[4].which, TokenType::Star);
    assert_eq!(tokens[5].which, TokenType::EOF);
}

#[test]
fn test_scan_string() {
    let s = Scanner::new(
        r#"
    "terminated 42 string"
"#,
    );
    let tokens = s.scan_tokens().unwrap();
    assert_eq!(tokens.len(), 2);
    assert_eq!(tokens[0].which, TokenType::String("terminated 42 string"));
    assert_eq!(tokens[1].which, TokenType::EOF);

    let s = Scanner::new(
        r#"
    "unterminated 42 string
"#,
    );
    assert!(s.scan_tokens().is_err());
}

#[test]
fn test_scan_number() {
    let s = Scanner::new("423298");
    let tokens = s.scan_tokens().unwrap();
    assert_eq!(tokens.len(), 2);
    assert_eq!(number_of(&tokens[0].which), Some(423298.0));
    assert_eq!(tokens[1].which, TokenType::EOF);

    let s = Scanner::new("423298.0");
    let tokens = s.scan_tokens().unwrap();
    assert_eq!(tokens.len(), 2);
    assert_eq!(number_of(&tokens[0].which), Some(423298.0));
    assert_eq!(tokens[1].which, TokenType::EOF);

    let s = Scanner::new("423298.");
    let tokens = s.scan_tokens().unwrap();
    assert_eq!(tokens.len(), 3);
    assert_eq!(number_of(&tokens[0].which), Some(423298.0));
    assert_eq!(tokens[1].which, TokenType::Dot);
    assert_eq!(tokens[2].which, TokenType::EOF);

    let s = Scanner::new(" 12.34  ");
    let tokens = s.scan_tokens().unwrap();
    assert_eq!(tokens.len(), 2);
    assert_eq!(number_of(&tokens[0].which), Some(12.34));
    assert_eq!(tokens[1].which, TokenType::EOF);
}

fn kinds<'a>(source: &'a str) -> Vec<TokenType<'a>> {
    let tokens = Scanner::new(source).scan_tokens().unwrap();
    tokens.into_iter().map(|token| token.which).collect()
}

fn digits(which: &TokenType) -> (Vec<u8>, Vec<u8>) {
    match which {
        TokenType::Number(literal) => (literal.whole().to_vec(), literal.fraction().to_vec()),
        other => panic!("not a number: {:?}", other),
    }
}

fn diagnostics(source: &str) -> Vec<(usize, String, String)> {
    let errors = Scanner::new(source).scan_tokens().err().unwrap();
    errors
        .iter()
        .map(|error| match error {
            LoxError::Own(own) => {
                (own.line(), own.context().to_string(), own.message().to_string())
            }
            LoxError::Other(text) => panic!("not an error of the scanner: {}", text),
        })
        .collect()
}

#[test]
fn eof_line_counts_newlines() {
    let tokens = Scanner::new("a\nb\n\nc\n").scan_tokens().unwrap();
    assert_eq!(tokens.len(), 4);
    assert_eq!(tokens[0].line(), 1);
    assert_eq!(tokens[1].line(), 2);
    assert_eq!(tokens[2].line(), 4);
    assert_eq!(tokens[3].which, TokenType::EOF);
    assert_eq!(tokens[3].line(), 5);
    assert_eq!(tokens[3].lexeme(), "");
}

#[test]
fn eof_is_the_only_token_of_an_empty_text() {
    let tokens = Scanner::new("").scan_tokens().unwrap();
    assert_eq!(tokens.len(), 1);
    assert_eq!(tokens[0].which, TokenType::EOF);
    assert_eq!(tokens[0].line(), 1);
}

#[test]
fn comment_runs_to_the_end_of_the_line() {
    assert_eq!(kinds("//"), vec![TokenType::EOF]);
    assert_eq!(kinds("// + - \"open"), vec![TokenType::EOF]);
    assert_eq!(kinds("+ // -\n*"), vec![TokenType::Plus, TokenType::Star, TokenType::EOF]);
    let tokens = Scanner::new("// one\n// two\n;").scan_tokens().unwrap();
    assert_eq!(tokens[0].which, TokenType::Semi);
    assert_eq!(tokens[0].line(), 3);
}

#[test]
fn multiline_scenario_without_indentation() {
    assert_eq!(
        kinds("\n{} // inline comment {}\n/;*\n"),
        vec![
            TokenType::LeftBrace,
            TokenType::RightBrace,
            TokenType::Slash,
            TokenType::Semi,
            TokenType::Star,
            TokenType::EOF,
        ]
    );
}

#[test]
fn single_character_tokens() {
    assert_eq!(
        kinds("(){},.-+;*/"),
        vec![
            TokenType::LeftParen,
            TokenType::RightParen,
            TokenType::LeftBrace,
            TokenType::RightBrace,
            TokenType::Comma,
            TokenType::Dot,
            TokenType::Minus,
            TokenType::Plus,
            TokenType::Semi,
            TokenType::Star,
            TokenType::Slash,
            TokenType::EOF,
        ]
    );
}

#[test]
fn operators_alone() {
    assert_eq!(
        kinds("! < > ="),
        vec![
            TokenType::Bang,
            TokenType::Less,
            TokenType::Greater,
            TokenType::Equal,
            TokenType::EOF,
        ]
    );
    assert_eq!(kinds("!"), vec![TokenType::Bang, TokenType::EOF]);
    assert_eq!(kinds("<a"), vec![TokenType::Less, TokenType::Identifier("a"), TokenType::EOF]);
}

#[test]
fn operators_take_in_the_equal_sign() {
    assert_eq!(kinds("!="), vec![TokenType::BangEqual, TokenType::EOF]);
    assert_eq!(kinds("<="), vec![TokenType::LessEqual, TokenType::EOF]);
    assert_eq!(kinds(">="), vec![TokenType::GreaterEqual, TokenType::EOF]);
    assert_eq!(kinds("=="), vec![TokenType::EqualEqual, TokenType::EOF]);
    assert_eq!(kinds("==="), vec![TokenType::EqualEqual, TokenType::Equal, TokenType::EOF]);
    assert_eq!(kinds("===="), vec![TokenType::EqualEqual, TokenType::EqualEqual, TokenType::EOF]);
    assert_eq!(kinds("!=="), vec![TokenType::BangEqual, TokenType::Equal, TokenType::EOF]);
    assert_eq!(kinds("<=>"), vec![TokenType::LessEqual, TokenType::Greater, TokenType::EOF]);
    assert_eq!(kinds("! ="), vec![TokenType::Bang, TokenType::Equal, TokenType::EOF]);
    assert_eq!(kinds("=!"), vec![TokenType::Equal, TokenType::Bang, TokenType::EOF]);
    let tokens = Scanner::new("!=").scan_tokens().unwrap();
    assert_eq!(tokens.len(), 2);
    assert_eq!(tokens[0].lexeme(), "!=");
    assert_eq!(tokens[0].line(), 1);
    let tokens = Scanner::new("<\n=").scan_tokens().unwrap();
    assert_eq!(tokens[0].which, TokenType::Less);
    assert_eq!(tokens[0].lexeme(), "<");
    assert_eq!(tokens[1].which, TokenType::Equal);
    assert_eq!(tokens[1].line(), 2);
}

#[test]
fn comparison_is_four_tokens() {
    let tokens = Scanner::new("a >= 10").scan_tokens().unwrap();
    assert_eq!(tokens.len(), 4);
    assert_eq!(tokens[0].which, TokenType::Identifier("a"));
    assert_eq!(tokens[1].which, TokenType::GreaterEqual);
    assert_eq!(tokens[1].lexeme(), ">=");
    assert_eq!(number_of(&tokens[2].which), Some(10.0));
    assert_eq!(tokens[3].which, TokenType::EOF);
    for token in &tokens {
        assert_eq!(token.line(), 1);
    }
    assert_eq!(
        kinds("x==y!=z<=w"),
        vec![
            TokenType::Identifier("x"),
            TokenType::EqualEqual,
            TokenType::Identifier("y"),
            TokenType::BangEqual,
            TokenType::Identifier("z"),
            TokenType::LessEqual,
            TokenType::Identifier("w"),
            TokenType::EOF,
        ]
    );
}

#[test]
fn whitespace_gives_no_token() {
    assert_eq!(kinds(" \t\r \r\n\t"), vec![TokenType::EOF]);
    let tokens = Scanner::new(" \t\r \r\n\t").scan_tokens().unwrap();
    assert_eq!(tokens[0].line(), 2);
}

#[test]
fn string_payload_is_the_text_between_the_quotes() {
    let tokens = Scanner::new("\"terminated 42 string\"").scan_tokens().unwrap();
    assert_eq!(tokens.len(), 2);
    assert_eq!(tokens[0].which, TokenType::String("terminated 42 string"));
    assert_eq!(tokens[0].lexeme(), "\"terminated 42 string\"");
    assert_eq!(tokens[0].line(), 1);
    assert_eq!(kinds("\"\""), vec![TokenType::String(""), TokenType::EOF]);
    assert_eq!(
        kinds("\"a\"\"b\""),
        vec![TokenType::String("a"), TokenType::String("b"), TokenType::EOF]
    );
}

#[test]
fn string_may_span_lines() {
    let tokens = Scanner::new("\"one\ntwo\n\" +").scan_tokens().unwrap();
    assert_eq!(tokens.len(), 3);
    assert_eq!(tokens[0].which, TokenType::String("one\ntwo\n"));
    assert_eq!(tokens[0].line(), 3);
    assert_eq!(tokens[1].which, TokenType::Plus);
    assert_eq!(tokens[1].line(), 3);
    assert_eq!(tokens[2].line(), 3);
}

#[test]
fn string_keeps_characters_of_any_width() {
    let tokens = Scanner::new("x \"h\u{e9}llo \u{20ac} \u{1f600}\" y").scan_tokens().unwrap();
    assert_eq!(tokens.len(), 4);
    assert_eq!(tokens[0].which, TokenType::Identifier("x"));
    assert_eq!(tokens[1].which, TokenType::String("h\u{e9}llo \u{20ac} \u{1f600}"));
    assert_eq!(tokens[1].lexeme(), "\"h\u{e9}llo \u{20ac} \u{1f600}\"");
    assert_eq!(tokens[2].which, TokenType::Identifier("y"));
    assert_eq!(tokens[2].lexeme(), "y");
}

#[test]
fn unterminated_string_is_reported_on_its_first_line() {
    assert_eq!(
        diagnostics("\"unterminated 42 string\n"),
        vec![(1, "when reading a string".to_string(), "unterminated string".to_string())]
    );
    assert_eq!(
        diagnostics("+\n\n \"abc\ndef\n\n"),
        vec![(3, "when reading a string".to_string(), "unterminated string".to_string())]
    );
    assert_eq!(
        diagnostics("\""),
        vec![(1, "when reading a string".to_string(), "unterminated string".to_string())]
    );
}

#[test]
fn number_digits_are_kept_exactly() {
    assert_eq!(digits(&kinds("423298")[0]), (vec![4, 2, 3, 2, 9, 8], vec![]));
    assert_eq!(digits(&kinds("423298.0")[0]), (vec![4, 2, 3, 2, 9, 8], vec![0]));
    assert_eq!(digits(&kinds(" 12.34  ")[0]), (vec![1, 2], vec![3, 4]));
    assert_eq!(digits(&kinds("007.500")[0]), (vec![0, 0, 7], vec![5, 0, 0]));
    assert_eq!(digits(&kinds("0")[0]), (vec![0], vec![]));
    let long = "123456789012345678901234567890.000000000000000000001";
    let tokens = Scanner::new(long).scan_tokens().unwrap();
    assert_eq!(tokens.len(), 2);
    assert_eq!(tokens[0].lexeme(), long);
    let (whole, fraction) = digits(&tokens[0].which);
    assert_eq!(whole.len(), 30);
    assert_eq!(fraction.len(), 21);
    assert_eq!(fraction[20], 1);
}

#[test]
fn number_values() {
    assert_eq!(number_of(&kinds("0")[0]), Some(0.0));
    assert_eq!(number_of(&kinds("7")[0]), Some(7.0));
    assert_eq!(number_of(&kinds("10.5")[0]), Some(10.5));
    assert_eq!(number_of(&kinds("0.25")[0]), Some(0.25));
    assert_eq!(number_of(&kinds("+")[0]), None);
}

#[test]
fn trailing_dot_is_a_token_of_its_own() {
    let tokens = Scanner::new("423298.").scan_tokens().unwrap();
    assert_eq!(tokens.len(), 3);
    assert_eq!(tokens[0].lexeme(), "423298");
    assert_eq!(tokens[1].which, TokenType::Dot);
    assert_eq!(tokens[1].lexeme(), ".");
    assert_eq!(
        kinds("1.x"),
        vec![kinds("1")[0].clone(), TokenType::Dot, TokenType::Identifier("x"), TokenType::EOF]
    );
    assert_eq!(kinds(".5"), vec![TokenType::Dot, kinds("5")[0].clone(), TokenType::EOF]);
    assert_eq!(
        kinds("1.2."),
        vec![kinds("1.2")[0].clone(), TokenType::Dot, TokenType::EOF]
    );
    assert_eq!(
        kinds("1..2"),
        vec![
            kinds("1")[0].clone(),
            TokenType::Dot,
            TokenType::Dot,
            kinds("2")[0].clone(),
            TokenType::EOF,
        ]
    );
}

#[test]
fn second_decimal_point_is_an_error() {
    assert_eq!(
        diagnostics("1.2.3"),
        vec![(1, "when parsing a number".to_string(), "unexpected dot".to_string())]
    );
    assert_eq!(
        diagnostics("\n\n10.25.5 + 1.2.3.4"),
        vec![
            (3, "when parsing a number".to_string(), "unexpected dot".to_string()),
            (3, "when parsing a number".to_string(), "unexpected dot".to_string()),
        ]
    );
}

#[test]
fn keywords_resolve_to_their_category() {
    assert_eq!(
        kinds("and class else false for fun if nil or print return super this true var while"),
        vec![
            TokenType::And,
            TokenType::Class,
            TokenType::Else,
            TokenType::False,
            TokenType::For,
            TokenType::Fun,
            TokenType::If,
            TokenType::Nil,
            TokenType::Or,
            TokenType::Print,
            TokenType::Return,
            TokenType::Super,
            TokenType::This,
            TokenType::True,
            TokenType::Var,
            TokenType::While,
            TokenType::EOF,
        ]
    );
}

#[test]
fn other_words_are_identifiers() {
    assert_eq!(
        kinds("And classes _else f0r fu nil_ printreturn x i whil while1 _ __a9Z"),
        vec![
            TokenType::Identifier("And"),
            TokenType::Identifier("classes"),
            TokenType::Identifier("_else"),
            TokenType::Identifier("f0r"),
            TokenType::Identifier("fu"),
            TokenType::Identifier("nil_"),
            TokenType::Identifier("printreturn"),
            TokenType::Identifier("x"),
            TokenType::Identifier("i"),
            TokenType::Identifier("whil"),
            TokenType::Identifier("while1"),
            TokenType::Identifier("_"),
            TokenType::Identifier("__a9Z"),
            TokenType::EOF,
        ]
    );
    let tokens = Scanner::new("foo.bar(baz)").scan_tokens().unwrap();
    assert_eq!(tokens[0].lexeme(), "foo");
    assert_eq!(tokens[2].lexeme(), "bar");
    assert_eq!(tokens[4].which, TokenType::Identifier("baz"));
}

#[test]
fn word_ends_at_a_character_outside_the_alphabet() {
    assert_eq!(
        diagnostics("caf\u{e9}"),
        vec![(1, "parsing".to_string(), "unexpected character '\u{e9}'".to_string())]
    );
    assert_eq!(
        kinds("a1+b2"),
        vec![
            TokenType::Identifier("a1"),
            TokenType::Plus,
            TokenType::Identifier("b2"),
            TokenType::EOF,
        ]
    );
    assert_eq!(
        kinds("1a"),
        vec![kinds("1")[0].clone(), TokenType::Identifier("a"), TokenType::EOF]
    );
}

#[test]
fn every_error_of_a_pass_is_reported() {
    assert_eq!(
        diagnostics("@ var x = #;\n$ \"open"),
        vec![
            (1, "parsing".to_string(), "unexpected character '@'".to_string()),
            (1, "parsing".to_string(), "unexpected character '#'".to_string()),
            (2, "parsing".to_string(), "unexpected character '$'".to_string()),
            (2, "when reading a string".to_string(), "unterminated string".to_string()),
        ]
    );
    assert_eq!(
        diagnostics("\u{1f600}"),
        vec![(1, "parsing".to_string(), "unexpected character '\u{1f600}'".to_string())]
    );
    assert_eq!(
        diagnostics("'"),
        vec![(1, "parsing".to_string(), "unexpected character '''".to_string())]
    );
}

#[test]
fn character_classes() {
    for c in ['0', '5', '9'] {
        assert!(is_digit(c));
        assert!(!is_alpha(c));
        assert!(is_alpha_numeric(c));
    }
    for c in ['a', 'm', 'z', 'A', 'M', 'Z', '_'] {
        assert!(!is_digit(c));
        assert!(is_alpha(c));
        assert!(is_alpha_numeric(c));
    }
    for c in ['/', ':', '@', '[', '`', '{', ' ', '\n', '\u{e9}', '\u{660}'] {
        assert!(!is_digit(c));
        assert!(!is_alpha(c));
        assert!(!is_alpha_numeric(c));
    }
}

#[test]
fn long_text() {
    let mut source = String::new();
    for i in 0..50_000 {
        source.push_str("var caf\u{e9}_");
        source.push_str(&i.to_string());
        source.push_str(" = \"\u{20ac}\" + 12.5; // \u{1f600}\n");
    }
    let errors = Scanner::new(&source).scan_tokens().err().unwrap();
    assert_eq!(errors.len(), 50_000);
    let source = source.replace('\u{e9}', "e");
    let tokens = Scanner::new(&source).scan_tokens().unwrap();
    assert_eq!(tokens.len(), 7 * 50_000 + 1);
    assert_eq!(tokens[7 * 49_999 + 1].which, TokenType::Identifier("cafe_49999"));
    assert_eq!(tokens[7 * 49_999 + 3].which, TokenType::String("\u{20ac}"));
    assert_eq!(tokens[7 * 49_999 + 6].line(), 50_000);
    assert_eq!(tokens[7 * 50_000].which, TokenType::EOF);
    assert_eq!(tokens[7 * 50_000].line(), 50_001);
}
