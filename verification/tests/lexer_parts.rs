use lib::kind::SubKindId;
use lib::lexer::action::class::CharClass;
use lib::lexer::action::simple::{chars, exact};
use lib::lexer::action::{Action, ActionData};
use lib::lexer::expectation::Expectation;
use lib::lexer::fork::{ForkOutputBuilder, ForkOutputFactory};
use lib::lexer::instant::Instant;
use lib::lexer::options::{LexOptions, TrimOptions};
use lib::lexer::position::{Position, PositionTransformer};
use lib::lexer::re_lex::ReLexContext;
use lib::lexer::snapshot::Snapshot;
use lib::lexer::stateless::head_map::{HeadMap, RuntimeActions};
use lib::lexer::stateless::literal_map::LiteralMap;
use lib::lexer::stateless::options::{StatelessLexOptions, StatelessOptions, StatelessTrimOptions};
use lib::lexer::stateless::{all_ids_exec, StatelessLexer};
use lib::lexer::token::Token;

const A: SubKindId = SubKindId(1);
const B: SubKindId = SubKindId(2);

#[test]
fn expectation_new_default() {
    let expectation = Expectation::default();
    assert_eq!(expectation.kind, None);
    assert_eq!(expectation.literal, None);
    let expectation = Expectation::new();
    assert_eq!(expectation.kind, None);
    assert_eq!(expectation.literal, None);
}

#[test]
fn expectation_from_kind_id_or_sub_kind_value() {
    let expectation = Expectation::from(A);
    assert_eq!(expectation.kind, Some(A));
    assert_eq!(expectation.literal, None);
    let expectation = Expectation::from_kind(B);
    assert_eq!(expectation.kind, Some(B));
    assert_eq!(expectation.literal, None);
}

#[test]
fn expectation_from_text() {
    let expectation = Expectation::from("text");
    assert_eq!(expectation.kind, None);
    assert_eq!(expectation.literal, Some("text"));
}

#[test]
fn expectation_methods() {
    let expectation = Expectation::new();
    let expectation = expectation.kind(A);
    assert_eq!(expectation.kind, Some(A));
    assert_eq!(expectation.literal, None);
    let expectation = expectation.literal("text");
    assert_eq!(expectation.kind, Some(A));
    assert_eq!(expectation.literal, Some("text"));
    let s = String::from("owned");
    let expectation = expectation.kind(B).literal(&s);
    assert_eq!(expectation.kind, Some(B));
    assert_eq!(expectation.literal, Some("owned"));
}

#[test]
fn mock_fork_output_factory() {
    let factory = ();
    let stateless_fork_output = ForkOutputFactory::into_fork_output(factory, 0, 2, 1);
    assert_eq!(stateless_fork_output, ());
}

#[test]
fn fork_output_builder() {
    let builder = ForkOutputBuilder::default();
    let stateless_fork_output = ForkOutputFactory::into_fork_output(builder, 0, 2, 1);
    assert_eq!(stateless_fork_output, None);

    let builder = ForkOutputBuilder::default();
    let stateless_fork_output = ForkOutputFactory::into_fork_output(builder, 0, 2, 0);
    assert_eq!(stateless_fork_output, Some(ReLexContext { start: 0, skip: 1 }));
}

#[test]
fn fork_output_builder_past_the_last_action() {
    let builder = ForkOutputBuilder::default();
    assert_eq!(ForkOutputFactory::into_fork_output(builder, 3, 1, 4), None);
}

#[test]
fn test_digest() {
    let mut state = Instant::new("123");
    assert_eq!(state.digested(), 0);
    assert!(!state.trimmed());

    state.digest(1);
    assert_eq!(state.digested(), 1);
    assert!(!state.trimmed());

    state.digest(2);
    assert_eq!(state.digested(), 3);
    assert!(state.trimmed());
}

#[test]
fn test_digest_0() {
    let mut state = Instant::new("123");
    assert_eq!(state.digested(), 0);
    assert!(!state.trimmed());
    state.trim(0);
    assert_eq!(state.digested(), 0);
    assert!(state.trimmed());
    state.digest(0);
    assert_eq!(state.digested(), 0);
    assert!(state.trimmed());
}

#[test]
fn test_trim() {
    let mut state = Instant::new("123");
    assert_eq!(state.digested(), 0);
    assert!(!state.trimmed());

    state.trim(1);
    assert_eq!(state.digested(), 1);
    assert!(state.trimmed());
}

#[test]
fn test_rest() {
    let mut state = Instant::new("123");
    assert_eq!(state.rest(), "123");
    state.digest(0);
    assert_eq!(state.rest(), "123");
    state.digest(1);
    assert_eq!(state.rest(), "23");
}

#[test]
fn lex_options() {
    let options = LexOptions::new();
    assert_eq!(
        options,
        LexOptions { expectation: Expectation::new(), fork: false, re_lex: ReLexContext::new() }
    );

    let options = options.expect(Expectation::from("literal"));
    assert_eq!(
        options,
        LexOptions {
            expectation: Expectation::new().literal("literal"),
            fork: false,
            re_lex: ReLexContext::new(),
        }
    );

    let options = options.fork();
    assert_eq!(
        options,
        LexOptions {
            expectation: Expectation::new().literal("literal"),
            fork: true,
            re_lex: ReLexContext::new(),
        }
    );

    let options = options.re_lex(ReLexContext { start: 1, skip: 1 });
    assert_eq!(
        options,
        LexOptions {
            expectation: Expectation::new().literal("literal"),
            fork: true,
            re_lex: ReLexContext { start: 1, skip: 1 },
        }
    );

    let options: LexOptions = Expectation::new().literal("literal").into();
    assert_eq!(
        options,
        LexOptions {
            expectation: Expectation::new().literal("literal"),
            fork: false,
            re_lex: ReLexContext::new(),
        }
    );
    let options: LexOptions = ReLexContext { start: 1, skip: 1 }.into();
    assert_eq!(
        options,
        LexOptions {
            expectation: Expectation::new(),
            fork: false,
            re_lex: ReLexContext { start: 1, skip: 1 },
        }
    );
}

#[test]
fn default() {
    let text = "";
    let transformer = PositionTransformer::default();
    assert_eq!(transformer.transform(0, text), None);
}

#[test]
fn empty() {
    let text = "";
    let mut transformer = PositionTransformer::default();
    transformer.update(text);
    assert_eq!(transformer.transform(0, text), None);
}

#[test]
fn new_line_only() {
    let text = "\n\n\n";
    let mut transformer = PositionTransformer::default();
    transformer.update(text);
    assert_eq!(transformer.transform(0, text), Some(Position { line: 0, character: 0 }));
    assert_eq!(transformer.transform(1, text), Some(Position { line: 1, character: 0 }));
    assert_eq!(transformer.transform(2, text), Some(Position { line: 2, character: 0 }));
    assert_eq!(transformer.transform(3, text), None);
}

#[test]
fn complex() {
    let mut transformer = PositionTransformer::default();
    let text = "abc\ndef\n123\n345";
    transformer.update(text);
    let at = |c: char| transformer.transform(text.find(c).unwrap(), text);
    assert_eq!(at('a'), Some(Position { line: 0, character: 0 }));
    assert_eq!(at('c'), Some(Position { line: 0, character: 2 }));
    assert_eq!(at('\n'), Some(Position { line: 0, character: 3 }));
    assert_eq!(at('d'), Some(Position { line: 1, character: 0 }));
    assert_eq!(at('f'), Some(Position { line: 1, character: 2 }));
    assert_eq!(at('1'), Some(Position { line: 2, character: 0 }));
    assert_eq!(at('5'), Some(Position { line: 3, character: 2 }));
    assert_eq!(transformer.transform(text.len(), text), None);
}

#[test]
fn utf8() {
    let mut transformer = PositionTransformer::default();
    let text = "a\nb🦀c哈";
    transformer.update(text);
    let at = |c: char| transformer.transform(text.find(c).unwrap(), text);
    assert_eq!(at('a'), Some(Position { line: 0, character: 0 }));
    assert_eq!(at('\n'), Some(Position { line: 0, character: 1 }));
    assert_eq!(at('b'), Some(Position { line: 1, character: 0 }));
    assert_eq!(at('🦀'), Some(Position { line: 1, character: 1 }));
    assert_eq!(at('c'), Some(Position { line: 1, character: 2 }));
    assert_eq!(at('哈'), Some(Position { line: 1, character: 3 }));
}

#[test]
fn position_transformer_in_two_updates() {
    let mut transformer = PositionTransformer::new("ab\n");
    transformer.update("cd\ne");
    let text = "ab\ncd\ne";
    assert_eq!(transformer.line_ranges().len(), 3);
    assert_eq!(transformer.transform(4, text), Some(Position { line: 1, character: 1 }));
    assert_eq!(transformer.transform(6, text), Some(Position { line: 2, character: 0 }));
    assert_eq!(transformer.line_index_at(5), Some(1));
    assert_eq!(transformer.line_index_at(7), None);
}

#[test]
fn re_lex_context() {
    let context = ReLexContext::new();
    assert_eq!(context, ReLexContext { start: 0, skip: 0 });
    let context = ReLexContext::default();
    assert_eq!(context, ReLexContext { start: 0, skip: 0 });
}

#[test]
fn test_snapshot() {
    assert_eq!(Snapshot { state: (), instant: Instant::new("") }.instant(), &Instant::new(""));
}

#[test]
fn test_token() {
    let token = Token { kind: SubKindId(0), data: ActionData::Unit, range: 0..5 };
    assert_eq!(&"0123456"[token.range], "01234");
}

#[test]
fn test_stateless_options() {
    let options = StatelessOptions { start: 0, state: (), heap: (), base: () };
    assert_eq!(options.start, 0);
    let _: () = options.state;
    let _: () = options.base;

    let options = options.start(1);
    assert_eq!(options.start, 1);
    let _: () = options.state;
    let _: () = options.base;

    let options = options.state(1);
    assert_eq!(options.start, 1);
    assert_eq!(options.state, 1);
    let _: () = options.base;
}

#[test]
fn test_stateless_lex_options() {
    let options = StatelessLexOptions::new();
    assert_eq!(options.start, 0);
    let _: () = options.state;
    assert_eq!(options.base, LexOptions::new());

    let options = options.expect(Expectation::default());
    assert_eq!(options.start, 0);
    let _: () = options.state;
    assert_eq!(options.base, LexOptions::new().expect(Expectation::default()));

    let options = options.expect_with(|e| e.literal("a"));
    assert_eq!(options.start, 0);
    let _: () = options.state;
    assert_eq!(options.base, LexOptions::new().expect_with(|e| e.literal("a")));

    let options = StatelessLexOptions::new().fork();
    assert_eq!(options.start, 0);
    let _: () = options.state;
    assert_eq!(options.base, LexOptions::new().fork());

    let options = options.re_lex(ReLexContext { start: 1, skip: 1 });
    assert_eq!(options.start, 0);
    let _: () = options.state;
    assert_eq!(options.base, LexOptions::new().fork().re_lex(ReLexContext { start: 1, skip: 1 }));
}

#[test]
fn test_stateless_trim_options() {
    let options = StatelessTrimOptions::new();
    assert_eq!(options.start, 0);
    let _: () = options.state;
    assert_eq!(options.base, TrimOptions);
}

/// An action without head matcher that accepts runs of `c`.
fn r(c: char) -> Action {
    chars(CharClass::OneOf(vec![c]))
}

fn assert_immutable_actions_eq(actions: &RuntimeActions, expected: Vec<Action>) {
    assert_eq!(actions.len(), expected.len());
    for (m, e) in actions.muted().iter().zip(expected.iter()) {
        assert_eq!(*m, e.muted());
    }
}

fn sample_actions() -> Vec<Action> {
    vec![
        exact("a").bind(A),
        exact("a").mute().bind(A),
        r('a').unchecked_head_in(vec!['a']).bind(A),
        r('a').unchecked_head_in(vec!['a']).mute().bind(A),
        r('a').unchecked_head_not(vec!['c']).bind(A),
        r('a').unchecked_head_not(vec!['c']).mute().bind(A),
        r('a').unchecked_head_unknown().bind(A),
        r('a').unchecked_head_unknown().mute().bind(A),
        r('a').bind(A),
        r('a').mute().bind(A),
        exact("b").bind(B),
        exact("b").mute().bind(B),
        r('b').unchecked_head_in(vec!['b']).bind(B),
        r('b').unchecked_head_in(vec!['b']).mute().bind(B),
        r('b').unchecked_head_not(vec!['c']).bind(B),
        r('b').unchecked_head_not(vec!['c']).mute().bind(B),
        r('b').unchecked_head_unknown().bind(B),
        r('b').unchecked_head_unknown().mute().bind(B),
        r('b').bind(B),
        r('b').mute().bind(B),
    ]
}

#[test]
fn test_new_stateless_lexer() {
    let lexer = StatelessLexer::new(sample_actions());
    let head_map: &HeadMap = lexer.head_map();

    assert_immutable_actions_eq(
      head_map.get('a'),
      vec![
        exact("a").bind(A),
        exact("a").mute().bind(A),
        r('a').unchecked_head_in(vec!['a']).bind(A),
        r('a').unchecked_head_in(vec!['a']).mute().bind(A),
        r('a').unchecked_head_not(vec!['c']).bind(A),
        r('a').unchecked_head_not(vec!['c']).mute().bind(A),
        r('a').bind(A),
        r('a').mute().bind(A),
        r('b').unchecked_head_not(vec!['c']).bind(B),
        r('b').unchecked_head_not(vec!['c']).mute().bind(B),
        r('b').bind(B),
        r('b').mute().bind(B),
      ],
    );
    assert_immutable_actions_eq(
      head_map.get('c'),
      vec![
        r('a').bind(A),
        r('a').mute().bind(A),
        r('b').bind(B),
        r('b').mute().bind(B),
      ],
    );
    assert_immutable_actions_eq(
      head_map.get('z'),
      vec![
        r('a').unchecked_head_not(vec!['c']).bind(A),
        r('a').unchecked_head_not(vec!['c']).mute().bind(A),
        r('a').unchecked_head_unknown().bind(A),
        r('a').unchecked_head_unknown().mute().bind(A),
        r('a').bind(A),
        r('a').mute().bind(A),
        r('b').unchecked_head_not(vec!['c']).bind(B),
        r('b').unchecked_head_not(vec!['c']).mute().bind(B),
        r('b').unchecked_head_unknown().bind(B),
        r('b').unchecked_head_unknown().mute().bind(B),
        r('b').bind(B),
        r('b').mute().bind(B),
      ],
    );
    let kind_a_head_map = lexer.kind_head_map(A).unwrap();
    assert_immutable_actions_eq(
      kind_a_head_map.get('a'),
      vec![
        exact("a").bind(A),
        exact("a").mute().bind(A),
        r('a').unchecked_head_in(vec!['a']).bind(A),
        r('a').unchecked_head_in(vec!['a']).mute().bind(A),
        r('a').unchecked_head_not(vec!['c']).bind(A),
        r('a').unchecked_head_not(vec!['c']).mute().bind(A),
        r('a').bind(A),
        r('a').mute().bind(A),
        r('b').unchecked_head_not(vec!['c']).mute().bind(B),
        r('b').mute().bind(B),
      ],
    );
    assert_immutable_actions_eq(
      kind_a_head_map.get('b'),
      vec![
        r('a').unchecked_head_not(vec!['c']).bind(A),
        r('a').unchecked_head_not(vec!['c']).mute().bind(A),
        r('a').bind(A),
        r('a').mute().bind(A),
        exact("b").mute().bind(B),
        r('b').unchecked_head_in(vec!['b']).mute().bind(B),
        r('b').unchecked_head_not(vec!['c']).mute().bind(B),
        r('b').mute().bind(B),
      ],
    );
    assert_immutable_actions_eq(
      kind_a_head_map.get('c'),
      vec![
        r('a').bind(A),
        r('a').mute().bind(A),
        r('b').mute().bind(B),
      ],
    );
    assert_immutable_actions_eq(
      kind_a_head_map.get('z'),
      vec![
        r('a').unchecked_head_not(vec!['c']).bind(A),
        r('a').unchecked_head_not(vec!['c']).mute().bind(A),
        r('a').unchecked_head_unknown().bind(A),
        r('a').unchecked_head_unknown().mute().bind(A),
        r('a').bind(A),
        r('a').mute().bind(A),
        r('b').unchecked_head_not(vec!['c']).mute().bind(B),
        r('b').unchecked_head_unknown().mute().bind(B),
        r('b').mute().bind(B),
      ],
    );
    let literal_a_head_map = lexer.literal_map().get("a").unwrap();
    assert_immutable_actions_eq(
      literal_a_head_map.get('a'),
      vec![
        exact("a").bind(A),
        exact("a").mute().bind(A),
        r('a').unchecked_head_in(vec!['a']).mute().bind(A),
        r('a').unchecked_head_not(vec!['c']).mute().bind(A),
        r('a').mute().bind(A),
        r('b').unchecked_head_not(vec!['c']).mute().bind(B),
        r('b').mute().bind(B),
      ],
    );
    assert_immutable_actions_eq(
      literal_a_head_map.get('b'),
      vec![
        r('a').unchecked_head_not(vec!['c']).mute().bind(A),
        r('a').mute().bind(A),
        exact("b").mute().bind(B),
        r('b').unchecked_head_in(vec!['b']).mute().bind(B),
        r('b').unchecked_head_not(vec!['c']).mute().bind(B),
        r('b').mute().bind(B),
      ],
    );
    assert_immutable_actions_eq(
      literal_a_head_map.get('c'),
      vec![
        r('a').mute().bind(A),
        r('b').mute().bind(B),
      ],
    );
    assert_immutable_actions_eq(
      literal_a_head_map.get('z'),
      vec![
        r('a').unchecked_head_not(vec!['c']).mute().bind(A),
        r('a').unchecked_head_unknown().mute().bind(A),
        r('a').mute().bind(A),
        r('b').unchecked_head_not(vec!['c']).mute().bind(B),
        r('b').unchecked_head_unknown().mute().bind(B),
        r('b').mute().bind(B),
      ],
    );
    let literal_a_muted_head_map = lexer.literal_map().muted_map();
    assert_immutable_actions_eq(
      literal_a_muted_head_map.get('a'),
      vec![
        exact("a").mute().bind(A),
        r('a').unchecked_head_in(vec!['a']).mute().bind(A),
        r('a').unchecked_head_not(vec!['c']).mute().bind(A),
        r('a').mute().bind(A),
        r('b').unchecked_head_not(vec!['c']).mute().bind(B),
        r('b').mute().bind(B),
      ],
    );
    assert_immutable_actions_eq(
      literal_a_muted_head_map.get('b'),
      vec![
        r('a').unchecked_head_not(vec!['c']).mute().bind(A),
        r('a').mute().bind(A),
        exact("b").mute().bind(B),
        r('b').unchecked_head_in(vec!['b']).mute().bind(B),
        r('b').unchecked_head_not(vec!['c']).mute().bind(B),
        r('b').mute().bind(B),
      ],
    );
    assert_immutable_actions_eq(
      literal_a_muted_head_map.get('c'),
      vec![
        r('a').mute().bind(A),
        r('b').mute().bind(B),
      ],
    );
    assert_immutable_actions_eq(
      literal_a_muted_head_map.get('z'),
      vec![
        r('a').unchecked_head_not(vec!['c']).mute().bind(A),
        r('a').unchecked_head_unknown().mute().bind(A),
        r('a').mute().bind(A),
        r('b').unchecked_head_not(vec!['c']).mute().bind(B),
        r('b').unchecked_head_unknown().mute().bind(B),
        r('b').mute().bind(B),
      ],
    );
    let kind_a_literal_map = lexer.kind_literal_map(A).unwrap();
    assert_immutable_actions_eq(
      kind_a_literal_map.get("a").unwrap().get('a'),
      vec![
        exact("a").bind(A),
        exact("a").mute().bind(A),
        r('a').unchecked_head_in(vec!['a']).mute().bind(A),
        r('a').unchecked_head_not(vec!['c']).mute().bind(A),
        r('a').mute().bind(A),
        r('b').unchecked_head_not(vec!['c']).mute().bind(B),
        r('b').mute().bind(B),
      ],
    );
    assert_immutable_actions_eq(
      kind_a_literal_map.get("a").unwrap().get('b'),
      vec![
        r('a').unchecked_head_not(vec!['c']).mute().bind(A),
        r('a').mute().bind(A),
        exact("b").mute().bind(B),
        r('b').unchecked_head_in(vec!['b']).mute().bind(B),
        r('b').unchecked_head_not(vec!['c']).mute().bind(B),
        r('b').mute().bind(B),
      ],
    );
    assert_immutable_actions_eq(
      kind_a_literal_map.get("a").unwrap().get('c'),
      vec![
        r('a').mute().bind(A),
        r('b').mute().bind(B),
      ],
    );
    assert_immutable_actions_eq(
      kind_a_literal_map.get("a").unwrap().get('z'),
      vec![
        r('a').unchecked_head_not(vec!['c']).mute().bind(A),
        r('a').unchecked_head_unknown().mute().bind(A),
        r('a').mute().bind(A),
        r('b').unchecked_head_not(vec!['c']).mute().bind(B),
        r('b').unchecked_head_unknown().mute().bind(B),
        r('b').mute().bind(B),
      ],
    );
    assert_immutable_actions_eq(
      kind_a_literal_map.muted_map().get('a'),
      vec![
        exact("a").mute().bind(A),
        r('a').unchecked_head_in(vec!['a']).mute().bind(A),
        r('a').unchecked_head_not(vec!['c']).mute().bind(A),
        r('a').mute().bind(A),
        r('b').unchecked_head_not(vec!['c']).mute().bind(B),
        r('b').mute().bind(B),
      ],
    );
    assert_immutable_actions_eq(
      kind_a_literal_map.muted_map().get('b'),
      vec![
        r('a').unchecked_head_not(vec!['c']).mute().bind(A),
        r('a').mute().bind(A),
        exact("b").mute().bind(B),
        r('b').unchecked_head_in(vec!['b']).mute().bind(B),
        r('b').unchecked_head_not(vec!['c']).mute().bind(B),
        r('b').mute().bind(B),
      ],
    );
    assert_immutable_actions_eq(
      kind_a_literal_map.muted_map().get('c'),
      vec![
        r('a').mute().bind(A),
        r('b').mute().bind(B),
      ],
    );
    assert_immutable_actions_eq(
      kind_a_literal_map.muted_map().get('z'),
      vec![
        r('a').unchecked_head_not(vec!['c']).mute().bind(A),
        r('a').unchecked_head_unknown().mute().bind(A),
        r('a').mute().bind(A),
        r('b').unchecked_head_not(vec!['c']).mute().bind(B),
        r('b').unchecked_head_unknown().mute().bind(B),
        r('b').mute().bind(B),
      ],
    );
    assert!(lexer.kind_head_map(SubKindId(9)).is_none());
}

#[test]
fn test_literal_map() {
    let actions: Vec<Action> = sample_actions()
        .into_iter()
        .map(|a| a.bind_default())
        .collect();

    let lm = LiteralMap::new(
        &actions,
        &all_ids_exec(actions.len()),
        &LiteralMap::collect_all_known(&actions),
        &HeadMap::collect_all_known(&actions),
    );

    assert_eq!(lm.known_count(), ["a", "b"].len());

    let literal_a_head_map = lm.get("a").unwrap();
    assert_immutable_actions_eq(
        literal_a_head_map.get('a'),
        vec![
            exact("a"),
            exact("a").mute(),
            r('a').unchecked_head_in(vec!['a']).mute(),
            r('a').unchecked_head_not(vec!['c']).mute(),
            r('a').mute(),
            r('b').unchecked_head_not(vec!['c']).mute(),
            r('b').mute(),
        ],
    );
    assert_immutable_actions_eq(
        literal_a_head_map.get('b'),
        vec![
            r('a').unchecked_head_not(vec!['c']).mute(),
            r('a').mute(),
            exact("b").mute(),
            r('b').unchecked_head_in(vec!['b']).mute(),
            r('b').unchecked_head_not(vec!['c']).mute(),
            r('b').mute(),
        ],
    );
    assert_immutable_actions_eq(literal_a_head_map.get('c'), vec![r('a').mute(), r('b').mute()]);
    assert_immutable_actions_eq(
        literal_a_head_map.get('z'),
        vec![
            r('a').unchecked_head_not(vec!['c']).mute(),
            r('a').unchecked_head_unknown().mute(),
            r('a').mute(),
            r('b').unchecked_head_not(vec!['c']).mute(),
            r('b').unchecked_head_unknown().mute(),
            r('b').mute(),
        ],
    );

    let muted_map = lm.muted_map();
    assert_immutable_actions_eq(
        muted_map.get('a'),
        vec![
            exact("a").mute(),
            r('a').unchecked_head_in(vec!['a']).mute(),
            r('a').unchecked_head_not(vec!['c']).mute(),
            r('a').mute(),
            r('b').unchecked_head_not(vec!['c']).mute(),
            r('b').mute(),
        ],
    );
    assert_immutable_actions_eq(
        muted_map.get('b'),
        vec![
            r('a').unchecked_head_not(vec!['c']).mute(),
            r('a').mute(),
            exact("b").mute(),
            r('b').unchecked_head_in(vec!['b']).mute(),
            r('b').unchecked_head_not(vec!['c']).mute(),
            r('b').mute(),
        ],
    );
    assert_immutable_actions_eq(muted_map.get('c'), vec![r('a').mute(), r('b').mute()]);
    assert_immutable_actions_eq(
        muted_map.get('z'),
        vec![
            r('a').unchecked_head_not(vec!['c']).mute(),
            r('a').unchecked_head_unknown().mute(),
            r('a').mute(),
            r('b').unchecked_head_not(vec!['c']).mute(),
            r('b').unchecked_head_unknown().mute(),
            r('b').mute(),
        ],
    );
}
