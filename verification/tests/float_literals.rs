use lib::lexer::action::float::{
    float_literal_body_with, float_literal_body_with_options, float_literal_with,
    float_literal_with_options, FloatExponentOptions, FloatLiteralData, FloatLiteralOptions,
};
use lib::lexer::action::{Action, ActionData, HeadMatcher};

type Data = FloatLiteralData<Vec<usize>, String, String, String>;

fn assert_float_literal_body(
    (digested, data): (usize, Data),
    integer: (usize, &str, Vec<usize>),
    fraction: Option<(usize, &str, Vec<usize>)>,
    exponent: Option<(usize, &str, usize, Vec<usize>)>,
) {
    if integer.0 == 0 && fraction.is_none() {
        assert_eq!(digested, 0);
    } else {
        assert_eq!(
            digested,
            integer.0
                + fraction.as_ref().map(|f| f.0).unwrap_or_default()
                + exponent.as_ref().map(|f| f.0).unwrap_or_default()
        );
    }
    assert_eq!(data.integral.0, integer.0);
    assert_eq!(data.integral.1.value, integer.1);
    assert_eq!(data.integral.1.separators, integer.2);

    if let Some(fraction) = fraction {
        assert_eq!(data.fractional.as_ref().unwrap().0, fraction.0);
        assert_eq!(data.fractional.as_ref().unwrap().1.value, fraction.1);
        assert_eq!(data.fractional.as_ref().unwrap().1.separators, fraction.2);
    }

    if let Some(exponent) = exponent {
        assert_eq!(data.exponent.as_ref().unwrap().0, exponent.0);
        assert_eq!(data.exponent.as_ref().unwrap().1.body.value, exponent.1);
        assert_eq!(data.exponent.as_ref().unwrap().1.indicator_len, exponent.2);
        assert_eq!(data.exponent.as_ref().unwrap().1.body.separators, exponent.3);
    }
}

fn full_options(
) -> FloatLiteralOptions<
    lib::lexer::action::integer::NumericSeparatorOptions<Vec<usize>>,
    String,
    String,
    String,
> {
    FloatLiteralOptions::new()
        .separator_with(|s| s.indexes_to_vec())
        .integral_to_string()
        .fractional_with(|o| o.value_to_string())
        .exponent_with(|o| o.value_to_string())
}

#[test]
fn test_float_literal_body_with_options() {
    let options = full_options();

    assert_float_literal_body(
        float_literal_body_with_options("z", options.clone()),
        (0, "", vec![]),
        None,
        None,
    );
    assert_float_literal_body(
        float_literal_body_with_options("12_3z", options.clone()),
        (4, "123", vec![2]),
        None,
        None,
    );
    assert_float_literal_body(
        float_literal_body_with_options("12_3.4_5z", options.clone()),
        (4, "123", vec![2]),
        Some((4, "45", vec![1])),
        None,
    );
    assert_float_literal_body(
        float_literal_body_with_options("12_3e4_5z", options.clone()),
        (4, "123", vec![2]),
        None,
        Some((4, "45", 1, vec![1])),
    );
    assert_float_literal_body(
        float_literal_body_with_options(".12_3z", options.clone()),
        (0, "", vec![]),
        Some((5, "123", vec![2])),
        None,
    );
    assert_float_literal_body(
        float_literal_body_with_options(".12_3e4_5z", options.clone()),
        (0, "", vec![]),
        Some((5, "123", vec![2])),
        Some((4, "45", 1, vec![1])),
    );
    assert_float_literal_body(
        float_literal_body_with_options("e1_0z", options.clone()),
        (0, "", vec![]),
        None,
        Some((4, "10", 1, vec![1])),
    );
    assert_float_literal_body(
        float_literal_body_with_options("e-1_0z", options.clone()),
        (0, "", vec![]),
        None,
        Some((5, "10", 2, vec![1])),
    );
    assert_float_literal_body(
        float_literal_body_with_options("e+1_0z", options.clone()),
        (0, "", vec![]),
        None,
        Some((5, "10", 2, vec![1])),
    );
    assert_float_literal_body(
        float_literal_body_with_options("E1_0z", options.clone()),
        (0, "", vec![]),
        None,
        Some((4, "10", 1, vec![1])),
    );
    assert_float_literal_body(
        float_literal_body_with_options("E-1_0z", options.clone()),
        (0, "", vec![]),
        None,
        Some((5, "10", 2, vec![1])),
    );
    assert_float_literal_body(
        float_literal_body_with_options("E+1_0z", options.clone()),
        (0, "", vec![]),
        None,
        Some((5, "10", 2, vec![1])),
    );
    assert_float_literal_body(
        float_literal_body_with_options("1_23.4_56e-7_8z", options.clone()),
        (4, "123", vec![1]),
        Some((5, "456", vec![1])),
        Some((5, "78", 2, vec![1])),
    );
}

fn head_is(action: &Action, len: usize, with_point: bool) -> bool {
    matches!(action.head(), Some(HeadMatcher::OneOf(set))
        if set.len() == len && set.contains(&'0') && set.contains(&'9')
            && (set.contains(&'.') == with_point))
}

#[test]
fn test_float_literal_action_head() {
    let action = float_literal_with(|o| o);
    assert!(head_is(&action, 10, false));

    let action = float_literal_with(|o| o.default_fractional());
    assert!(head_is(&action, 11, true));

    let action = float_literal_with(|o| o.default_exponent());
    assert!(head_is(&action, 10, false));

    let action = float_literal_with(|o| o.default_fractional().default_exponent());
    assert!(head_is(&action, 11, true));
}

fn assert_reject(action: &Action, s: &str) {
    assert!(action.exec(s).is_none())
}

fn assert_accept(
    action: &Action,
    s: &str,
    integer: (usize, &str, Vec<usize>),
    fraction: Option<(usize, &str, Vec<usize>)>,
    exponent: Option<(usize, &str, usize, Vec<usize>)>,
) {
    let output = action.exec(s).unwrap();
    match output.data {
        ActionData::Float(data) => {
            assert_float_literal_body((output.digested, data), integer, fraction, exponent)
        }
        _ => panic!("expected float data"),
    }
}

#[test]
fn test_float_literal_action_with_options() {
    let action = float_literal_with_options(full_options());

    assert_reject(&action, "z");
    assert_reject(&action, "e10");

    assert_accept(
        &action,
        "1_23.4_56e-7_8z",
        (4, "123", vec![1]),
        Some((5, "456", vec![1])),
        Some((5, "78", 2, vec![1])),
    );
}

#[test]
fn float_literal_body_builder_matches_options() {
    let (digested, data) = float_literal_body_with("3.5e2x", |o| {
        o.integral_to_string()
            .fractional_with(|f| f.value_to_string())
            .exponent_with(|e| e.value_to_string())
    });
    assert_eq!(digested, 5);
    assert_eq!(data.integral.1.value, "3");
    assert_eq!(data.fractional.as_ref().unwrap().1.value, "5");
    assert_eq!(data.exponent.as_ref().unwrap().1.body.value, "2");
}

#[test]
fn float_literal_without_fraction_stops_at_point() {
    let action = float_literal_with(|o| o.default_exponent());
    assert_eq!(action.exec("12.5").unwrap().digested, 2);
    assert_eq!(action.exec("12e3").unwrap().digested, 4);
}

#[test]
fn float_literal_custom_exponent_indicator() {
    let options = FloatLiteralOptions::new()
        .integral_to_string()
        .exponent(FloatExponentOptions::new().indicators(vec!["p".to_string()]).value_to_string());
    let (digested, data) = float_literal_body_with_options("12p3x", options.clone());
    assert_eq!(digested, 4);
    let exponent = data.exponent.unwrap();
    assert_eq!(exponent.0, 2);
    assert_eq!(exponent.1.indicator_len, 1);
    assert_eq!(exponent.1.body.value, "3");
    let (digested, data) = float_literal_body_with_options("12e3", options);
    assert_eq!(digested, 2);
    assert!(data.exponent.is_none());
}

#[test]
fn float_literal_body_with_documented_case() {
    let (digested, data) = float_literal_body_with("1_23.4_56e-7_8z", |o| {
        o.separator_with(|s| s.char('_').indexes_to_vec())
            .integral_to_string()
            .fractional_with(|o| o.point('.').value_to_string())
            .exponent_with(|o| o.value_to_string())
    });
    assert_eq!(digested, 14);
    let (integer_digested, integer_data) = data.integral;
    assert_eq!(integer_digested, 4);
    assert_eq!(integer_data.value, "123".to_string());
    assert_eq!(integer_data.separators, vec![1]);
    let (fraction_digested, fraction_data) = data.fractional.unwrap();
    assert_eq!(fraction_digested, 5);
    assert_eq!(fraction_data.value, "456".to_string());
    assert_eq!(fraction_data.separators, vec![1]);
    let (exponent_digested, exponent_data) = data.exponent.unwrap();
    assert_eq!(exponent_digested, 5);
    assert_eq!(exponent_data.indicator_len, 2);
    assert_eq!(exponent_data.body.value, "78".to_string());
    assert_eq!(exponent_data.body.separators, vec![1]);
}

