use lib::kind::SubKindId;
use lib::lexer::action::class::CharClass;
use lib::lexer::action::simple::{chars, exact, word};
use lib::lexer::action::Action;
use lib::lexer::builder::{ActionList, LexerBuilder};
use lib::lexer::lexer::Lexer;

const ANONYMOUS: SubKindId = SubKindId(0);
const A: SubKindId = SubKindId(1);
const B: SubKindId = SubKindId(2);

fn one(action: Action) -> ActionList {
    ActionList::single(action)
}

fn many(actions: Vec<Action>) -> ActionList {
    ActionList::from(actions)
}

#[test]
fn test_lexer_builder_constructors() {
    let _: LexerBuilder = LexerBuilder::default().append(one(exact("a")));
    let _: LexerBuilder = LexerBuilder::new().append(one(exact("a")));
    let _: LexerBuilder = LexerBuilder::stateful().append(one(exact("a")));
}

#[test]
fn test_lexer_builder_actions() {
    let builder = LexerBuilder::new().append(one(exact("a")));
    assert_eq!(builder.actions().len(), 1);
}

#[test]
fn test_lexer_builder_ensure_head_matcher() {
    let (invalid, _) = LexerBuilder::new()
        .append(many(vec![chars(CharClass::AsciiDigit), exact("a"), chars(CharClass::AsciiDigit)]))
        .ensure_head_matcher()
        .err()
        .unwrap();
    assert_eq!(invalid, vec![0, 2]);

    assert!(LexerBuilder::new().append(one(exact("a"))).ensure_head_matcher().is_ok());
}

#[test]
fn test_build() {
    let builder_factory = || LexerBuilder::stateful().append(one(exact("a")));

    let lexer = builder_factory().build_with(1, "123");
    assert_eq!(lexer.state, 1);
    assert_eq!(lexer.instant().text(), "123");

    let lexer: Lexer<i32> = builder_factory().build("123");
    assert_eq!(lexer.state, 0);
    assert_eq!(lexer.instant().text(), "123");
}

#[test]
fn action_list_from_action() {
    let action: Action = word("A");
    let list: ActionList = action.into();
    assert_eq!(list.0.len(), 1);
}

#[test]
fn action_list_from_vec() {
    let action: Action = word("A");
    let list: ActionList = vec![action].into();
    assert_eq!(list.0.len(), 1);
}

#[test]
fn action_list_from_array() {
    let action: Action = word("A");
    let list: ActionList = [action].into();
    assert_eq!(list.0.len(), 1);
}

#[test]
fn lexer_builder_append() {
    assert_eq!(LexerBuilder::new().append(one(word("A").bind(A))).actions().len(), 1);
    assert_eq!(
        LexerBuilder::new()
            .append(many(vec![word("A").bind(A), word("B").bind(B)]))
            .actions()
            .len(),
        2
    );
}

#[test]
fn lexer_builder_append_with() {
    let builder = LexerBuilder::new().append_with(one(word("A").bind(A)), |a| a.mute());
    assert_eq!(builder.actions().len(), 1);
    assert!(builder.actions()[0].muted());

    let builder = LexerBuilder::new()
        .append_with(many(vec![exact("A").bind(A), exact("B").bind(B)]), |a| a.mute());
    assert_eq!(builder.actions().len(), 2);
    assert!(builder.actions()[0].muted());
    assert!(builder.actions()[1].muted());
    assert_eq!(builder.actions()[0].kind(), A);
    assert_eq!(builder.actions()[1].kind(), B);
}

#[test]
fn lexer_builder_append_default() {
    let builder = LexerBuilder::new().append_default(one(word("A").bind(A)));
    assert_eq!(builder.actions().len(), 1);
    assert_eq!(builder.actions()[0].kind(), ANONYMOUS);

    let builder = LexerBuilder::new().append_default(many(vec![word("A"), word("B").bind(B)]));
    assert_eq!(builder.actions().len(), 2);
    assert_eq!(builder.actions()[0].kind(), ANONYMOUS);
    assert_eq!(builder.actions()[1].kind(), ANONYMOUS);
}

#[test]
fn lexer_builder_append_default_with() {
    let builder = LexerBuilder::new().append_default_with(one(word("A")), |a| a.mute());
    assert_eq!(builder.actions().len(), 1);
    assert_eq!(builder.actions()[0].kind(), ANONYMOUS);
    assert!(builder.actions()[0].muted());

    let builder =
        LexerBuilder::new().append_default_with(many(vec![exact("A"), exact("B")]), |a| a.mute());
    assert_eq!(builder.actions().len(), 2);
    assert_eq!(builder.actions()[0].kind(), ANONYMOUS);
    assert_eq!(builder.actions()[1].kind(), ANONYMOUS);
    assert!(builder.actions()[0].muted());
    assert!(builder.actions()[1].muted());
}

#[test]
fn lexer_builder_define() {
    let builder = LexerBuilder::new().define(A, one(word("A")));
    assert_eq!(builder.actions().len(), 1);
    assert_eq!(builder.actions()[0].kind(), A);

    let builder = LexerBuilder::new().define(A, many(vec![word("A"), word("AA")]));
    assert_eq!(builder.actions().len(), 2);
    assert_eq!(builder.actions()[0].kind(), A);
    assert_eq!(builder.actions()[1].kind(), A);
}

#[test]
fn lexer_builder_define_with() {
    let builder = LexerBuilder::new().define_with(A, one(word("A")), |a| a.mute());
    assert_eq!(builder.actions().len(), 1);
    assert_eq!(builder.actions()[0].kind(), A);
    assert!(builder.actions()[0].muted());

    let builder =
        LexerBuilder::new().define_with(A, many(vec![exact("A"), exact("B")]), |a| a.mute());
    assert_eq!(builder.actions().len(), 2);
    assert_eq!(builder.actions()[0].kind(), A);
    assert_eq!(builder.actions()[1].kind(), A);
    assert!(builder.actions()[0].muted());
    assert!(builder.actions()[1].muted());
}

#[test]
fn lexer_builder_ignore() {
    let builder = LexerBuilder::new().ignore(one(word("A").bind(A)));
    assert_eq!(builder.actions().len(), 1);
    assert!(builder.actions()[0].muted());

    let builder = LexerBuilder::new().ignore(many(vec![word("A").bind(A), word("B").bind(B)]));
    assert_eq!(builder.actions().len(), 2);
    assert!(builder.actions()[0].muted());
    assert!(builder.actions()[1].muted());
}

#[test]
fn lexer_builder_ignore_with() {
    let builder =
        LexerBuilder::new().ignore_with(one(word("A").bind(A)), |a| a.unchecked_head_unknown());
    assert_eq!(builder.actions().len(), 1);
    assert!(builder.actions()[0].muted());
    assert!(builder.actions()[0].head().is_some());

    let builder = LexerBuilder::new()
        .ignore_with(many(vec![word("A").bind(A), word("B").bind(B)]), |a| {
            a.unchecked_head_unknown()
        });
    assert_eq!(builder.actions().len(), 2);
    assert!(builder.actions()[0].muted());
    assert!(builder.actions()[1].muted());
    assert!(builder.actions()[0].head().is_some());
    assert!(builder.actions()[1].head().is_some());
}

#[test]
fn lexer_builder_ignore_default() {
    let builder = LexerBuilder::new().ignore_default(one(word("A")));
    assert_eq!(builder.actions().len(), 1);
    assert_eq!(builder.actions()[0].kind(), ANONYMOUS);
    assert!(builder.actions()[0].muted());

    let builder = LexerBuilder::new().ignore_default(many(vec![word("A"), word("B")]));
    assert_eq!(builder.actions().len(), 2);
    assert_eq!(builder.actions()[0].kind(), ANONYMOUS);
    assert_eq!(builder.actions()[1].kind(), ANONYMOUS);
    assert!(builder.actions()[0].muted());
    assert!(builder.actions()[1].muted());
}

#[test]
fn lexer_builder_ignore_default_with() {
    let builder =
        LexerBuilder::new().ignore_default_with(one(word("A")), |a| a.unchecked_head_unknown());
    assert_eq!(builder.actions().len(), 1);
    assert_eq!(builder.actions()[0].kind(), ANONYMOUS);
    assert!(builder.actions()[0].muted());
    assert!(builder.actions()[0].head().is_some());

    let builder = LexerBuilder::new()
        .ignore_default_with(many(vec![word("A"), word("B")]), |a| a.unchecked_head_unknown());
    assert_eq!(builder.actions().len(), 2);
    assert_eq!(builder.actions()[0].kind(), ANONYMOUS);
    assert_eq!(builder.actions()[1].kind(), ANONYMOUS);
    assert!(builder.actions()[0].muted());
    assert!(builder.actions()[1].muted());
    assert!(builder.actions()[0].head().is_some());
    assert!(builder.actions()[1].head().is_some());
}
