use lib::lexer::action::accumulator::{Accumulator, StringAccumulator, VecAccumulator};
use lib::lexer::action::class::CharClass;
use lib::lexer::action::simple::{
    char_range, chars, charset, exact, exact_chars, unchecked_exact, unchecked_exact_chars,
    starts_with_word_boundary, whitespaces, word,
};
use lib::lexer::action::{Action, HeadMatcher};

fn assert_accept(action: &Action, text: &str, expected: usize) {
    assert_eq!(action.exec(text).unwrap().digested, expected);
}

fn assert_reject(action: &Action, text: &str) {
    assert!(action.exec(text).is_none());
}

fn assert_head_one_of(action: &Action, c: char) {
    assert!(matches!(
      action.head().as_ref().unwrap(),
      HeadMatcher::OneOf(set) if set.len() == 1 && set.contains(&c)
    ));
}

#[test]
fn vec_accumulator() {
    let mut acc = VecAccumulator::default();
    acc.update(1);
    acc.update(2);
    acc.update(3);
    assert_eq!(acc.emit(), vec![1, 2, 3]);
}

#[test]
fn string_accumulator() {
    let mut acc = StringAccumulator::default();
    acc.update('1');
    acc.update('2');
    acc.update('3');
    assert_eq!(acc.emit(), "123");
}

#[test]
fn action_utils_chars() {
    let action = chars(CharClass::AsciiDigit);
    assert_reject(&action, "abc");
    assert_accept(&action, "123", 3);
    assert_accept(&action, "123abc", 3);
}

#[test]
fn action_utils_char_range() {
    let action = char_range('0', '9');
    assert_reject(&action, "abc");
    assert_accept(&action, "123", 3);
    assert_accept(&action, "123abc", 3);
    match action.head().as_ref().unwrap() {
        HeadMatcher::OneOf(set) => {
            assert_eq!(set.len(), 10);
            assert!(set.contains(&'0'));
            assert!(set.contains(&'5'));
            assert!(set.contains(&'9'));
            assert!(!set.contains(&'a'));
        }
        _ => panic!("char_range must set a one-of head"),
    }
}

#[test]
fn char_range_head_of_large_range() {
    let action = char_range('\u{0}', '\u{FFFF}');
    assert!(action.head().is_none());
    assert_accept(&action, "a\u{FFFF}", 4);
}

#[test]
fn action_utils_charset() {
    let action = charset(vec!['a', 'b', 'c']);
    assert_reject(&action, "123");
    assert_accept(&action, "abc", 3);
    assert_accept(&action, "abc123", 3);
}

#[test]
fn action_utils_whitespaces() {
    let action = whitespaces();

    assert_reject(&action, "123");
    assert_reject(&action, "abc");
    assert_accept(&action, " \n\t", 3);

    let text: String = [
        '\u{0009}', '\u{000A}', '\u{000B}', '\u{000C}', '\u{000D}', '\u{0020}', '\u{0085}',
        '\u{00A0}', '\u{1680}', '\u{2000}', '\u{2001}', '\u{2002}', '\u{2003}', '\u{2004}',
        '\u{2005}', '\u{2006}', '\u{2007}', '\u{2008}', '\u{2009}', '\u{200A}', '\u{2028}',
        '\u{2029}', '\u{202F}', '\u{205F}', '\u{3000}',
    ]
    .into_iter()
    .collect();
    assert_accept(&action, &text, text.len());
}

#[test]
fn action_utils_exact() {
    let action = exact("a");
    assert_reject(&action, "b");
    assert_accept(&action, "a", 1);
    assert_accept(&action, "ab", 1);
    assert_head_one_of(&action, 'a');
    assert_eq!(action.literal(), &Some("a".to_string()));
}

#[test]
fn action_utils_exact_vec() {
    let actions: Vec<Action> = vec![exact("++"), exact("--")];
    assert_accept(&actions[0], "++", 2);
    assert_accept(&actions[1], "--", 2);
    assert_accept(&actions[0], "+++", 2);
    assert_accept(&actions[1], "---", 2);
    assert_head_one_of(&actions[0], '+');
    assert_head_one_of(&actions[1], '-');
}

#[test]
fn action_utils_exact_chars() {
    let actions = exact_chars("+-*/");
    assert_eq!(actions.len(), 4);
    assert_accept(&actions[0], "+", 1);
    assert_accept(&actions[1], "-", 1);
    assert_accept(&actions[2], "*", 1);
    assert_accept(&actions[3], "/", 1);
    assert_accept(&actions[0], "++", 1);
    assert_accept(&actions[1], "--", 1);
    assert_head_one_of(&actions[0], '+');
    assert_head_one_of(&actions[1], '-');
    assert_head_one_of(&actions[2], '*');
    assert_head_one_of(&actions[3], '/');
}

#[test]
fn action_utils_unchecked_exact() {
    let action = unchecked_exact("ab");
    assert_accept(&action, "ab", 2);
    assert_accept(&action, "abb", 2);
    assert_head_one_of(&action, 'a');
    assert_eq!(action.literal(), &Some("ab".to_string()));
    // only the head matcher checks the first char, not the action itself
    assert_accept(&action, "aa", 2);
    assert_accept(&action, "bb", 2);
}

#[test]
fn action_utils_unchecked_exact_chars() {
    let actions = unchecked_exact_chars("+-*/");
    assert_eq!(actions.len(), 4);
    assert_accept(&actions[0], "+", 1);
    assert_accept(&actions[1], "-", 1);
    assert_accept(&actions[2], "*", 1);
    assert_accept(&actions[3], "/", 1);
    assert_accept(&actions[0], "++", 1);
    assert_accept(&actions[1], "--", 1);
    assert_head_one_of(&actions[0], '+');
    assert_head_one_of(&actions[1], '-');
    assert_head_one_of(&actions[2], '*');
    assert_head_one_of(&actions[3], '/');
}

#[test]
fn action_utils_word() {
    let action = word("aa");
    assert_reject(&action, "ab");
    assert_accept(&action, "aa", 2);
    assert_accept(&action, "aa ", 2);
    assert_accept(&action, "aa\t", 2);
    assert_accept(&action, "aa\n", 2);
    assert_accept(&action, "aa+", 2);
    assert_accept(&action, "aa,", 2);
    assert_accept(&action, "aa=", 2);
    assert_accept(&action, "aa，", 2);
    assert_reject(&action, "aab");
    assert_reject(&action, "aa1");
    assert_reject(&action, "aa_");
    assert_reject(&action, "aa我");
    assert_head_one_of(&action, 'a');
    assert_eq!(action.literal(), &Some("aa".to_string()));
}

#[test]
fn action_utils_word_vec() {
    let actions: Vec<Action> = vec![word("int"), word("bool")];
    assert_accept(&actions[0], "int", 3);
    assert_accept(&actions[1], "bool", 4);
    assert_accept(&actions[0], "int ", 3);
    assert_accept(&actions[1], "bool\t", 4);
    assert_accept(&actions[0], "int+", 3);
    assert_accept(&actions[1], "bool,", 4);
    assert_reject(&actions[0], "int1");
    assert_reject(&actions[1], "bool_");
    assert_head_one_of(&actions[0], 'i');
    assert_head_one_of(&actions[1], 'b');
}

#[test]
fn char_class_members() {
    assert!(CharClass::AsciiHexDigit.contains('F'));
    assert!(!CharClass::AsciiHexDigit.contains('g'));
    assert!(CharClass::BinaryDigit.contains('1'));
    assert!(!CharClass::BinaryDigit.contains('2'));
    assert!(CharClass::OctalDigit.contains('7'));
    assert!(!CharClass::OctalDigit.contains('8'));
    assert!(CharClass::Alphanumeric.contains('我'));
    assert!(!CharClass::Alphanumeric.contains('_'));
    assert!(CharClass::Whitespace.contains('\u{3000}'));
    assert!(CharClass::RangeExcept('a', 'z', vec!['q']).contains('p'));
    assert!(!CharClass::RangeExcept('a', 'z', vec!['q']).contains('q'));
}

#[test]
fn action_mute_and_bind() {
    let action = exact("a").mute();
    assert!(action.muted());
    let action = action.unmute().bind(lib::kind::SubKindId(3));
    assert!(!action.muted());
    assert_eq!(action.kind(), lib::kind::SubKindId(3));
    assert_eq!(action.bind_default().kind(), lib::kind::SubKindId(0));
}

#[test]
fn word_boundaries() {
    assert!(starts_with_word_boundary(""));
    assert!(starts_with_word_boundary(" "));
    assert!(starts_with_word_boundary("\n"));
    assert!(starts_with_word_boundary("\t"));
    assert!(starts_with_word_boundary("+"));
    assert!(starts_with_word_boundary(","));
    assert!(starts_with_word_boundary("="));
    assert!(starts_with_word_boundary("，"));
    assert!(!starts_with_word_boundary("a"));
    assert!(!starts_with_word_boundary("1"));
    assert!(!starts_with_word_boundary("_"));
    assert!(!starts_with_word_boundary("我"));
}

#[test]
fn whitespaces_accepts_unicode_whitespace() {
    let action = whitespaces();
    assert_accept(&action, "\u{3000}\u{a0}\u{2028}x", 8);
    assert_reject(&action, "\u{200b}");
}
