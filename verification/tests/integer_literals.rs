use lib::lexer::action::accumulator::{
    Accumulator, IntegerLiteralBodySeparatorAccumulator, IntegerLiteralBodyStringAccumulator,
    IntegerLiteralBodyStringValueAccumulator,
};
use lib::lexer::action::class::CharClass;
use lib::lexer::action::integer::{
    binary_integer_literal_body_with, binary_integer_literal_body_with_options,
    binary_integer_literal_with, binary_integer_literal_with_options,
    decimal_integer_literal_body_with, decimal_integer_literal_body_with_options,
    decimal_integer_literal_with, decimal_integer_literal_with_options,
    hexadecimal_integer_literal_body_with, hexadecimal_integer_literal_body_with_options,
    hexadecimal_integer_literal_with, hexadecimal_integer_literal_with_options,
    integer_literal_body_with, octal_integer_literal_body_with,
    octal_integer_literal_body_with_options, octal_integer_literal_with,
    octal_integer_literal_with_options, IntegerLiteralBodyOptions, IntegerLiteralData,
    NumericSeparatorAccumulator, NumericSeparatorOptions,
};
use lib::lexer::action::{Action, ActionData};

type VecStringOptions = IntegerLiteralBodyOptions<NumericSeparatorOptions<Vec<usize>>, String>;

fn options_builder(o: IntegerLiteralBodyOptions<(), ()>) -> VecStringOptions {
    o.separator_with(|s| s.indexes_to_vec()).value_to_string()
}

fn vec_string_options() -> VecStringOptions {
    IntegerLiteralBodyOptions::new().separator_with(|s| s.indexes_to_vec()).value_to_string()
}

fn assert_reject(action: Action, s: &str) {
    assert!(action.exec(s).is_none());
}

#[test]
fn integer_literal_body_string_accumulator() {
    let mut acc = IntegerLiteralBodyStringAccumulator::default();
    acc.update('1');
    acc.update('2');
    acc.update('3');
    assert_eq!(acc.emit(), "123");
}

#[test]
fn integer_literal_body_separator_accumulator() {
    let mut acc = IntegerLiteralBodySeparatorAccumulator::default();
    acc.update(1);
    acc.update(2);
    acc.update(3);
    assert_eq!(acc.emit(), vec![1, 2, 3]);
}

#[test]
fn integer_literal_body_string_value_accumulator() {
    let mut acc = IntegerLiteralBodyStringValueAccumulator::default();
    acc.update('1');
    acc.update('2');
    acc.update('3');
    assert_eq!(acc.emit(), "123");
}

#[test]
fn test_mock_numeric_separator_accumulator() {
    let acc = ();
    assert!(!NumericSeparatorAccumulator::validate(&acc, '_'));
    assert!(!NumericSeparatorAccumulator::validate(&acc, '1'));
    let _: () = NumericSeparatorAccumulator::emit(acc);
}

#[test]
fn test_numeric_separator_options() {
    let mut options = NumericSeparatorOptions::new();
    assert_eq!(options.char, '_');
    let _: () = options.indexes_to;

    options = options.char('-');
    assert_eq!(options.char, '-');
    let options = options.indexes_to(vec![()]);
    assert_eq!(options.indexes_to, vec![()]);
    let mut options = options.indexes_to_vec();
    assert_eq!(options.indexes_to, Vec::<usize>::new());

    assert!(options.validate('-'));
    assert!(!options.validate('_'));
    options.update(0);
    assert_eq!(NumericSeparatorAccumulator::emit(options), vec![0]);
}

#[test]
fn test_integer_literal_body_options() {
    let options = IntegerLiteralBodyOptions::new();
    let _: () = options.separator;
    let _: () = options.value_to;

    let options = options.separator(NumericSeparatorOptions::new());
    assert_eq!(options.separator.char, '_');
    let _: () = options.separator.indexes_to;
    let options = options.separator_with(|s| s.char('-').indexes_to_vec());
    assert_eq!(options.separator.char, '-');
    assert_eq!(options.separator.indexes_to, Vec::<usize>::new());
    let options = options.default_separator();
    assert_eq!(options.separator.char, '_');
    let _: () = options.separator.indexes_to;
    let options = options.value_to(String::new());
    assert_eq!(options.value_to, String::new());
    let options = options.value_to_string();
    assert_eq!(options.value_to, String::new());
}

#[test]
fn test_integer_literal_body_with() {
    let (digested, data) = integer_literal_body_with("1_234z", &CharClass::AsciiDigit, |o| {
        o.separator_with(|s| s.indexes_to_vec()).value_to_string()
    });
    assert_eq!(digested, 5);
    assert_eq!(data.separators, vec![1]);
    assert_eq!(data.value, "1234".to_string());
}

#[test]
fn test_integer_literal_body_with_options() {
    fn assert_integer_literal_body(
        (digested, data): (usize, IntegerLiteralData<Vec<usize>, String>),
        expect_value: &str,
    ) {
        assert_eq!(digested, 4);
        assert_eq!(data.separators, vec![1]);
        assert_eq!(data.value, expect_value.to_string());
    }

    let options = vec_string_options();
    assert_integer_literal_body(binary_integer_literal_body_with("1_01", options_builder), "101");
    assert_integer_literal_body(
        binary_integer_literal_body_with_options("1_01", options.clone()),
        "101",
    );
    assert_integer_literal_body(octal_integer_literal_body_with("7_07", options_builder), "707");
    assert_integer_literal_body(
        octal_integer_literal_body_with_options("7_07", options.clone()),
        "707",
    );
    assert_integer_literal_body(decimal_integer_literal_body_with("9_09", options_builder), "909");
    assert_integer_literal_body(
        decimal_integer_literal_body_with_options("9_09", options.clone()),
        "909",
    );
    assert_integer_literal_body(
        hexadecimal_integer_literal_body_with("f_0f", options_builder),
        "f0f",
    );
    assert_integer_literal_body(
        hexadecimal_integer_literal_body_with_options("f_0f", options.clone()),
        "f0f",
    );
}

#[test]
fn test_integer_literal_body_with_options_separators_only() {
    fn test(
        f: impl Fn(&str, IntegerLiteralBodyOptions<(), ()>) -> (usize, IntegerLiteralData<(), ()>),
    ) {
        let options = IntegerLiteralBodyOptions::new();
        assert_eq!(f("____", options).0, 0);
    }
    test(binary_integer_literal_body_with_options);
    test(octal_integer_literal_body_with_options);
    test(decimal_integer_literal_body_with_options);
    test(hexadecimal_integer_literal_body_with_options);
}

#[test]
fn test_integer_literal_body_with_options_starts_or_ends_with_separators() {
    fn test(
        f: impl Fn(
            &str,
            IntegerLiteralBodyOptions<NumericSeparatorOptions<()>, ()>,
        ) -> (usize, IntegerLiteralData<(), ()>),
    ) {
        let options = IntegerLiteralBodyOptions::new().default_separator();
        assert_eq!(f("_000_", options.clone()).0, 5);
        assert_eq!(f("000_", options.clone()).0, 4);
        assert_eq!(f("_000", options).0, 4);
    }
    test(binary_integer_literal_body_with_options);
    test(octal_integer_literal_body_with_options);
    test(decimal_integer_literal_body_with_options);
    test(hexadecimal_integer_literal_body_with_options);
}

#[test]
fn test_integer_literal_body_with_options_consecutive_separators() {
    fn test(
        f: impl Fn(
            &str,
            IntegerLiteralBodyOptions<NumericSeparatorOptions<()>, ()>,
        ) -> (usize, IntegerLiteralData<(), ()>),
    ) {
        let options = IntegerLiteralBodyOptions::new().default_separator();
        assert_eq!(f("0__0", options).0, 4);
    }
    test(binary_integer_literal_body_with_options);
    test(octal_integer_literal_body_with_options);
    test(decimal_integer_literal_body_with_options);
    test(hexadecimal_integer_literal_body_with_options);
}

#[test]
fn test_integer_literal_actions() {
    fn assert_integer_literal_action(action: Action, s: &str, expect_value: &str) {
        let res = action.exec(s).unwrap();
        assert_eq!(res.digested, 6);
        match res.data {
            ActionData::Integer(data) => {
                assert_eq!(data.separators, vec![1]);
                assert_eq!(data.value, expect_value);
            }
            _ => panic!("expected integer data"),
        }
    }
    let options = vec_string_options();

    assert_integer_literal_action(binary_integer_literal_with(options_builder), "0b1_01z", "101");
    assert_integer_literal_action(
        binary_integer_literal_with_options(options.clone()),
        "0b1_01z",
        "101",
    );
    assert_integer_literal_action(octal_integer_literal_with(options_builder), "0o7_07z", "707");
    assert_integer_literal_action(
        octal_integer_literal_with_options(options.clone()),
        "0o7_07z",
        "707",
    );
    assert_integer_literal_action(
        decimal_integer_literal_with(options_builder),
        "9_0909z",
        "90909",
    );
    assert_integer_literal_action(
        decimal_integer_literal_with_options(options.clone()),
        "9_0909z",
        "90909",
    );
    assert_integer_literal_action(
        hexadecimal_integer_literal_with(options_builder),
        "0xf_0fz",
        "f0f",
    );
    assert_integer_literal_action(
        hexadecimal_integer_literal_with_options(options.clone()),
        "0xf_0fz",
        "f0f",
    );
}

#[test]
fn test_decimal_integer_literal_action_starts_with_separator() {
    let action = decimal_integer_literal_with_options(IntegerLiteralBodyOptions::new());
    assert_reject(action, "_123");
}

#[test]
fn test_integer_literal_actions_wrong_prefix() {
    let action = binary_integer_literal_with_options(IntegerLiteralBodyOptions::new());
    assert_reject(action, "z");
    let action = octal_integer_literal_with_options(IntegerLiteralBodyOptions::new());
    assert_reject(action, "z");
    let action = hexadecimal_integer_literal_with_options(IntegerLiteralBodyOptions::new());
    assert_reject(action, "z");
    let action =
        decimal_integer_literal_with_options(IntegerLiteralBodyOptions::new().default_separator());
    assert_reject(action, "_123");
}

#[test]
fn test_no_digested() {
    let action = binary_integer_literal_with_options(IntegerLiteralBodyOptions::new());
    assert_reject(action, "0b");
    let action = octal_integer_literal_with_options(IntegerLiteralBodyOptions::new());
    assert_reject(action, "0o");
    let action = decimal_integer_literal_with_options(IntegerLiteralBodyOptions::new());
    assert_reject(action, "z");
    let action = hexadecimal_integer_literal_with_options(IntegerLiteralBodyOptions::new());
    assert_reject(action, "0x");
}

/// A big-int style literal (`0B`, a binary body, then `n`), built from the
/// binary body matcher.
fn big_int_literal(rest: &str) -> Option<usize> {
    let prefix = "0B";
    let suffix = "n";
    if rest.starts_with(prefix) {
        let (digested, _data) = binary_integer_literal_body_with(&rest[prefix.len()..], |o| o);
        if rest[prefix.len() + digested..].starts_with(suffix) {
            Some(prefix.len() + digested + suffix.len())
        } else {
            None
        }
    } else {
        None
    }
}

#[test]
fn with_suffix() {
    assert_eq!(big_int_literal("0B101n"), Some(6));
    assert_eq!(big_int_literal("0B101"), None);
    assert_eq!(big_int_literal("0b101n"), None);
}

#[test]
fn integer_literal_data_without_separators() {
    let action = decimal_integer_literal_with_options(IntegerLiteralBodyOptions::new());
    let res = action.exec("1_2").unwrap();
    assert_eq!(res.digested, 1);
    match res.data {
        ActionData::Integer(data) => {
            assert_eq!(data.separators, Vec::<usize>::new());
            assert_eq!(data.value, "1");
        }
        _ => panic!("expected integer data"),
    }
}

#[test]
fn integer_literal_head_and_custom_separator() {
    let action = hexadecimal_integer_literal_with(|o| o.separator_with(|s| s.char('\'')));
    let res = action.exec("0xA'B").unwrap();
    assert_eq!(res.digested, 5);
    assert!(matches!(
        action.head().as_ref().unwrap(),
        lib::lexer::action::HeadMatcher::OneOf(set) if set.len() == 1 && set.contains(&'0')
    ));
}

#[test]
fn integer_literal_body_with_documented_cases() {
    let run = |s: &str| {
        integer_literal_body_with(s, &CharClass::AsciiDigit, |o| {
            o.separator_with(|s| s.indexes_to_vec()).value_to_string()
        })
    };
    let (digested, data) = run("1_234z");
    assert_eq!(digested, 5);
    assert_eq!(data.separators, vec![1]);
    assert_eq!(data.value, "1234".to_string());

    let (digested, data) = run("____z");
    assert_eq!(digested, 0);
    assert_eq!(data.separators, vec![0, 1, 2, 3]);
    assert_eq!(data.value, "".to_string());

    let (digested, data) = run("_123_z");
    assert_eq!(digested, 5);
    assert_eq!(data.separators, vec![0, 4]);
    assert_eq!(data.value, "123".to_string());

    let (digested, data) = run("1__2z");
    assert_eq!(digested, 4);
    assert_eq!(data.separators, vec![1, 2]);
    assert_eq!(data.value, "12".to_string());
}

