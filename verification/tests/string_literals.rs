use lib::lexer::action::class::CharClass;
use lib::lexer::action::escape::{
    code_point_with, code_point_with_options, fallback, hex, hex_with, hex_with_options,
    line_continuation, unicode, unicode_with, CodePointEscapeError, CodePointEscapeOptions,
    EscapeError, EscapeHandler, HexEscapeError, HexEscapeOptions, StringLiteralError,
};
use lib::lexer::action::string::{
    string, string_body, PartialStringBody, StringBodyMatcherInput, StringBodyOptions,
};
use lib::lexer::action::string_list::StringList;
use lib::lexer::action::{Action, ActionData, ActionOutput, HeadMatcher};

fn parts(output: &ActionOutput) -> &Vec<PartialStringBody> {
    match &output.data {
        ActionData::Str(parts) => parts,
        _ => panic!("expected string data"),
    }
}

fn validate_output(output: ActionOutput) -> ActionOutput {
    let data = parts(&output);
    assert!(data.len() > 0);
    for (i, p) in data.iter().enumerate() {
        assert!(if i == data.len() - 1 { p.close } else { !p.close });
    }
    output
}

fn assert_accept_all(action: &Action, text: &str, value: &str) -> ActionOutput {
    let output = action.exec(text).unwrap();
    assert_eq!(output.digested, text.len());
    assert_eq!(
        parts(&output).iter().map(|p| p.value.clone()).collect::<Vec<_>>().join(""),
        value
    );
    validate_output(output)
}

fn sample_string_action() -> Action {
    string(
        StringList::from_strs(&vec!["\"", "c\"", "r\""]),
        StringBodyOptions::new()
            .close('"')
            .singleline()
            .escape(
                '\\',
                vec![
                    lib::lexer::action::escape::map(vec![('n', '\n'), ('t', '\t')]),
                    line_continuation(vec!["\r\n".to_string(), "\n".to_string()]),
                    code_point_with(|o| o.error(EscapeError::CodePoint)),
                    hex_with(|o| o.error(EscapeError::Hex)),
                    unicode_with(|o| o.error(EscapeError::Hex)),
                ],
            )
            .chars(CharClass::AsciiDigit)
            .acc_to_vec(),
    )
}

#[test]
fn test_string_literal() {
    let a = sample_string_action();

    assert!(matches!(
        a.head(),
        Some(HeadMatcher::OneOf(set))
            if set.len() == 3 && set.contains(&'"') && set.contains(&'c') && set.contains(&'r')
    ));

    // wrong prefix
    assert!(a.exec("aa").is_none());

    // unterminated
    let output = assert_accept_all(&a, "\"", "");
    assert_eq!(parts(&output).len(), 1);
    assert_eq!(parts(&output)[0].error, Some(StringLiteralError::Unterminated));

    // no matcher matches
    let output = validate_output(a.exec("\"a").unwrap());
    assert_eq!(output.digested, 1);
    assert_eq!(parts(&output).len(), 1);
    assert_eq!(parts(&output)[0].value, "");
    assert_eq!(parts(&output)[0].error, Some(StringLiteralError::Unterminated));

    // terminate on line break, which is not digested
    let output = validate_output(a.exec("\"\n").unwrap());
    assert_eq!(output.digested, 1);
    assert_eq!(parts(&output).len(), 1);
    assert_eq!(parts(&output)[0].value, "");
    assert_eq!(parts(&output)[0].error, Some(StringLiteralError::Unterminated));

    // unhandled escape
    let output = assert_accept_all(&a, "\"\\1\"", "\\1");
    assert_eq!(parts(&output).len(), 3);
    assert_eq!(parts(&output)[0].error, Some(StringLiteralError::UnhandledEscape));
    assert!(parts(&output)[1].error.is_none());

    // all together
    let value = "123\n\t\x11\u{1234}\u{1234}\\1";
    let text = "\"123\\n\\t\\\r\n\\\n\\x11\\u1234\\u{1234}\\1\"";
    assert_accept_all(&a, text, value);
    assert_accept_all(&a, &(String::from("c") + text), value);
    assert_accept_all(&a, &(String::from("r") + text), value);
}

fn check_escape<E: Copy + PartialEq + std::fmt::Debug>(
    h: &EscapeHandler<E>,
    src: &str,
    value: Option<&str>,
    err: Option<E>,
) {
    let input = StringBodyMatcherInput::new(src).unwrap();
    assert_eq!(input.next, src.chars().next().unwrap());
    match h.apply(input.rest) {
        Some(escape) => {
            assert_eq!(escape.value, value.unwrap());
            match err {
                Some(e) => assert_eq!(escape.error, Some(StringLiteralError::Custom(e))),
                None => assert!(escape.error.is_none()),
            }
        }
        None => assert!(value.is_none()),
    }
}

#[test]
fn test_hex_with_options() {
    let h = hex_with_options(HexEscapeOptions::default());
    check_escape(&h, "a", None, None);
    check_escape(&h, "xz", Some("\0"), Some(HexEscapeError::TooShort));
    check_escape(&h, "x1", Some("\0"), Some(HexEscapeError::TooShort));
    check_escape(&h, "x1f", Some("\x1f"), None);

    #[derive(PartialEq, Debug, Clone, Copy)]
    struct MyError(HexEscapeError);

    let h = hex_with_options(HexEscapeOptions::default().prefix(':').length(6).error(MyError));
    check_escape(&h, "a", None, None);
    check_escape(&h, ":z", Some("\0"), Some(MyError(HexEscapeError::TooShort)));
    check_escape(&h, ":110000", Some("\0"), Some(MyError(HexEscapeError::InvalidUnicode)));
    check_escape(&h, ":1", Some("\0"), Some(MyError(HexEscapeError::TooShort)));
    check_escape(&h, ":01111f", Some("\u{01111f}"), None);
}

#[test]
fn test_unicode() {
    let h = unicode();
    check_escape(&h, "a", None, None);
    check_escape(&h, "uz", Some("\0"), Some(HexEscapeError::TooShort));
    check_escape(&h, "u1", Some("\0"), Some(HexEscapeError::TooShort));
    check_escape(&h, "u1fff", Some("\u{1fff}"), None);
}

#[test]
fn test_map() {
    let h = lib::lexer::action::escape::map(vec![('n', '\n'), ('r', '\r'), ('t', '\t'), ('0', '\0'), ('\\', '\\')]);
    check_escape(&h, "n", Some("\n"), None);
    check_escape(&h, "r", Some("\r"), None);
    check_escape(&h, "t", Some("\t"), None);
    check_escape(&h, "0", Some("\0"), None);
    check_escape(&h, "\\", Some("\\"), None);
    check_escape(&h, "a", None, None);
}

#[test]
fn test_line_continuation() {
    let h = line_continuation(vec!["\r\n".to_string(), "\n".to_string()]);
    check_escape(&h, "\r\n", Some(""), None);
    check_escape(&h, "\n", Some(""), None);
    check_escape(&h, "a", None, None);
}

#[test]
fn test_fallback() {
    let h = fallback(());
    check_escape(&h, "a", Some("a"), Some(()));
}

#[test]
fn hex_escape_digested_bytes() {
    let e = hex().apply("x41rest").unwrap();
    assert_eq!(e.digested, 3);
    assert_eq!(e.value, "A");
    let e = hex().apply("xz").unwrap();
    assert_eq!(e.digested, 1);
}

#[test]
fn code_point_escape_errors() {
    let h = code_point_with_options(CodePointEscapeOptions::default());
    let e = h.apply("u{41}x").unwrap();
    assert_eq!((e.digested, e.value.as_str(), e.error), (5, "A", None));
    let err = |e: CodePointEscapeError| Some(StringLiteralError::Custom(e));
    assert_eq!(h.apply("u{}").unwrap().error, err(CodePointEscapeError::Empty));
    assert_eq!(h.apply("u{z}").unwrap().error, err(CodePointEscapeError::InvalidChar));
    assert_eq!(h.apply("u{110000}").unwrap().error, err(CodePointEscapeError::InvalidUnicode));
    assert_eq!(h.apply("u{1234567}").unwrap().error, err(CodePointEscapeError::Overlong));
    assert_eq!(h.apply("u{12").unwrap().error, err(CodePointEscapeError::Unterminated));
    assert!(h.apply("u12").is_none());
    assert!(h.apply("x{12}").is_none());
}

#[test]
fn string_body_to_string_accumulator() {
    let options = StringBodyOptions::new()
        .close('\'')
        .escape('\\', vec![lib::lexer::action::escape::map(vec![('n', '\n')])])
        .chars(CharClass::Alphanumeric)
        .acc_to_string();
    let (digested, value) = string_body("ab\\ncd'tail", &options);
    assert_eq!(digested, 7);
    assert_eq!(value, "ab\ncd");
}

#[test]
fn string_body_matcher_input_of_empty_rest() {
    assert!(StringBodyMatcherInput::new("").is_none());
}

#[test]
fn string_body_close_match() {
    let options = StringBodyOptions::new()
        .close_match("${".to_string())
        .chars(CharClass::Alphanumeric)
        .acc_to_vec();
    let action = string(StringList::single("`"), options);
    let out = action.exec("`ab${x").unwrap();
    assert_eq!(out.digested, 5);
    let parts = parts(&out);
    assert_eq!(parts.len(), 2);
    assert!(parts[1].close);
    assert_eq!(parts[1].digested, 2);
}

#[test]
fn string_list_from_vec() {
    let list = StringList::from(vec!["a".to_string(), "b".to_string()]);
    assert_eq!(list.0.len(), 2);
    assert_eq!(StringList::single("q").0, vec!["q".to_string()]);
}

#[test]
fn string_matcher_appends_to_its_accumulator() {
    let first = PartialStringBody { digested: 0, value: "x".to_string(), close: false, error: None };
    let body = StringBodyOptions::new().close('"').chars(CharClass::Alphanumeric).acc(vec![first]);
    let m = lib::lexer::action::string::StringMatcher { open: vec!["\"".to_string()], body };
    let (digested, parts) = m.exec("\"ab\" tail").unwrap();
    assert_eq!(digested, 4);
    assert_eq!(parts.len(), 3);
    assert_eq!(parts[0].value, "x");
    assert_eq!(parts[1].value, "ab");
    assert!(parts[2].close);
}

#[test]
fn code_point_escape_with_error_mapper() {
    #[derive(PartialEq, Debug, Clone, Copy)]
    struct Mapped(CodePointEscapeError);

    let h = code_point_with(|o| o.error(Mapped));
    let e = h.apply("u{}").unwrap();
    assert_eq!(e.error, Some(StringLiteralError::Custom(Mapped(CodePointEscapeError::Empty))));
    assert_eq!((e.digested, e.value.as_str()), (1, "\0"));
    let e = h.apply("u{110000}").unwrap();
    assert_eq!(e.error, Some(StringLiteralError::Custom(Mapped(CodePointEscapeError::InvalidUnicode))));
    let e = h.apply("u{41}").unwrap();
    assert_eq!((e.digested, e.value.as_str(), e.error), (5, "A", None));

    let h = unicode_with(|o| o.error(|_| ()));
    assert_eq!(h.apply("u12").unwrap().error, Some(StringLiteralError::Custom(())));
}
