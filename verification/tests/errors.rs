use lox::errors::{report_error, DisplayableError, LoxError, LoxResult, OwnError};
use lox::text::{push_decimal, width};

fn own(result: LoxResult<()>) -> OwnError {
    match result {
        Err(LoxError::Own(error)) => error,
        Err(LoxError::Other(text)) => panic!("not an error of the interpreter: {}", text),
        Ok(()) => panic!("not an error"),
    }
}

#[test]
fn error_holds_what_it_was_made_of() {
    let error = OwnError::new(3, "parsing".to_string(), "unexpected character '@'".to_string());
    assert_eq!(error.line(), 3);
    assert_eq!(error.context(), "parsing");
    assert_eq!(error.message(), "unexpected character '@'");
}

#[test]
fn error_rendering() {
    let error = OwnError::new(3, "parsing".to_string(), "unexpected character '@'".to_string());
    assert_eq!(error.render(), "[3] Error parsing: unexpected character '@'");
    let error = OwnError::new(1200, "when reading a string".to_string(), "".to_string());
    assert_eq!(error.render(), "[1200] Error when reading a string: ");
    assert_eq!(LoxError::Own(error).render(), "[1200] Error when reading a string: ");
    assert_eq!(LoxError::Other("disk on fire".to_string()).render(), "disk on fire");
}

#[test]
fn report_error_with_a_text() {
    let error = own(report_error(
        7,
        "when parsing a number".to_string(),
        "unexpected dot".to_string(),
    ));
    assert_eq!(error.line(), 7);
    assert_eq!(error.context(), "when parsing a number");
    assert_eq!(error.message(), "unexpected dot");
}

#[test]
fn report_error_always_fails() {
    let result: LoxResult<u8> = report_error(0, String::new(), String::new());
    assert!(result.is_err());
    let result: LoxResult<String> = report_error(1, "x".to_string(), Vec::<LoxError>::new());
    assert!(result.is_err());
}

#[test]
fn report_error_with_a_list_of_errors() {
    let errors = vec![
        LoxError::Own(OwnError::new(
            1,
            "parsing".to_string(),
            "unexpected character '#'".to_string(),
        )),
        LoxError::Other("no such file".to_string()),
        LoxError::Own(OwnError::new(
            20,
            "when reading a string".to_string(),
            "unterminated string".to_string(),
        )),
    ];
    let error = own(report_error(2, "scanning".to_string(), errors));
    assert_eq!(error.line(), 2);
    assert_eq!(error.context(), "scanning");
    assert_eq!(
        error.message(),
        "\n[1] Error parsing: unexpected character '#'\nno such file\n\
         [20] Error when reading a string: unterminated string"
    );
    let error = own(report_error(2, "scanning".to_string(), Vec::<LoxError>::new()));
    assert_eq!(error.message(), "");
}

#[test]
fn displayable_error_from_either_source() {
    let text: DisplayableError = "plain".to_string().into();
    assert_eq!(text.into_text(), "plain");
    let list: DisplayableError =
        vec![LoxError::Other("a".to_string()), LoxError::Other("b".to_string())].into();
    assert_eq!(list.into_text(), "\na\nb");
    assert_eq!(DisplayableError::s("direct".to_string()).into_text(), "direct");
    assert_eq!(DisplayableError::errors(vec![]).into_text(), "");
}

#[test]
fn decimal_numerals() {
    for (n, expected) in [
        (0, "0"),
        (9, "9"),
        (10, "10"),
        (101, "101"),
        (12345, "12345"),
        (usize::MAX, &usize::MAX.to_string()),
    ] {
        let mut out = String::from("n=");
        push_decimal(&mut out, n);
        assert_eq!(out, format!("n={}", expected));
    }
}

#[test]
fn widths_in_utf8() {
    assert_eq!(width('\0'), 1);
    assert_eq!(width('a'), 1);
    assert_eq!(width('\u{7f}'), 1);
    assert_eq!(width('\u{80}'), 2);
    assert_eq!(width('\u{e9}'), 2);
    assert_eq!(width('\u{7ff}'), 2);
    assert_eq!(width('\u{800}'), 3);
    assert_eq!(width('\u{20ac}'), 3);
    assert_eq!(width('\u{ffff}'), 3);
    assert_eq!(width('\u{10000}'), 4);
    assert_eq!(width('\u{1f600}'), 4);
    assert_eq!(width('\u{10ffff}'), 4);
    for c in ['a', '\u{e9}', '\u{20ac}', '\u{1f600}'] {
        assert_eq!(width(c), c.len_utf8());
    }
}
