use lib::kind::SubKindId;
use lib::lexer::action::integer::{decimal_integer_literal_with_options, IntegerLiteralBodyOptions};
use lib::lexer::action::json;
use lib::lexer::action::simple::{exact, whitespaces, word};
use lib::lexer::action::ActionData;
use lib::lexer::builder::{ActionList, LexerBuilder};
use lib::lexer::core_lexer::{CallbackOutput, LexerCore, LexerCoreLexOptions, UpdateContext, Validator};
use lib::lexer::expectation::Expectation;
use lib::lexer::lexer::Lexer;
use lib::lexer::options::LexOptions;
use lib::lexer::re_lex::ReLexContext;
use lib::lexer::stateless::options::{StatelessLexOptions, StatelessTrimOptions};
use lib::lexer::stateless::StatelessLexer;

const INT: SubKindId = SubKindId(1);
const KEYWORD: SubKindId = SubKindId(2);
const IDENT: SubKindId = SubKindId(3);

fn sample_lexer() -> StatelessLexer {
    LexerBuilder::new()
        .ignore_default(ActionList::single(whitespaces()))
        .define(INT, ActionList::single(decimal_integer_literal_with_options(IntegerLiteralBodyOptions::new())))
        .define(KEYWORD, ActionList::single(word("let")))
        .define(IDENT, ActionList::single(word("letter")))
        .build_stateless()
}

#[test]
fn stateless_lex_skips_muted_and_emits_first_accepting() {
    let lexer = sample_lexer();
    let out = lexer.lex("  123 let");
    let token = out.token.unwrap();
    assert_eq!(token.kind, INT);
    assert_eq!(token.range, 2..5);
    assert_eq!(out.digested, 5);
    assert!(out.fork.is_none());
}

#[test]
fn stateless_lex_from_start_offset() {
    let lexer = sample_lexer();
    let out = lexer.lex_with_options("  123 let", StatelessLexOptions::new().start(5));
    let token = out.token.unwrap();
    assert_eq!(token.kind, KEYWORD);
    assert_eq!(token.range, 6..9);
    assert_eq!(out.digested, 4);
}

#[test]
fn stateless_lex_without_accepting_action() {
    let lexer = sample_lexer();
    let out = lexer.lex("  ?");
    assert!(out.token.is_none());
    assert_eq!(out.digested, 2);

    let out = lexer.lex("");
    assert!(out.token.is_none());
    assert_eq!(out.digested, 0);
}

#[test]
fn stateless_lex_with_expected_kind() {
    let lexer = sample_lexer();
    let out = lexer.lex_with("letter", |o| o.expect(Expectation::from(IDENT)));
    let token = out.token.unwrap();
    assert_eq!(token.kind, IDENT);
    assert_eq!(out.digested, 6);

    // the keyword does not accept "letter" (no word boundary), so only the ident can
    let out = lexer.lex("letter");
    assert_eq!(out.token.unwrap().kind, IDENT);

    // an expected kind that no action accepts here
    let out = lexer.lex_with("123", |o| o.expect(Expectation::from(KEYWORD)));
    assert!(out.token.is_none());
}

#[test]
fn stateless_lex_with_expected_literal() {
    let lexer = LexerBuilder::new()
        .define(KEYWORD, ActionList::single(exact("+")))
        .define(IDENT, ActionList::single(exact("++")))
        .build_stateless();
    let out = lexer.lex("++");
    assert_eq!(out.token.unwrap().kind, KEYWORD);
    let out = lexer.lex_with("++", |o| o.expect(Expectation::new().literal("++")));
    let token = out.token.unwrap();
    assert_eq!(token.kind, IDENT);
    assert_eq!(token.range, 0..2);
}

#[test]
fn stateless_lex_fork_and_re_lex() {
    let lexer = LexerBuilder::new()
        .define(KEYWORD, ActionList::single(exact("+")))
        .define(IDENT, ActionList::single(exact("++")))
        .build_stateless();
    let out = lexer.lex_with("++", |o| o.fork());
    assert_eq!(out.token.as_ref().unwrap().kind, KEYWORD);
    let context = out.fork.unwrap();
    assert_eq!(context, ReLexContext { start: 0, skip: 1 });

    let out = lexer.lex_with("++", |o| o.re_lex(context));
    assert_eq!(out.token.unwrap().kind, IDENT);
    assert_eq!(out.digested, 2);

    // the last candidate leaves nothing to fork to
    let out = lexer.lex_with("++", |o| o.re_lex(context).fork());
    assert!(out.fork.is_none());
}

#[test]
fn stateless_peek_is_lex() {
    let lexer = sample_lexer();
    let state = 7;
    let (a, peeked_state) = lexer.peek_with(" 42", |o| o.state(&state));
    assert_eq!(peeked_state, 7);
    let b = lexer.lex(" 42");
    assert_eq!(a.digested, b.digested);
    assert_eq!(a.token.unwrap().range, b.token.unwrap().range);
}

#[test]
fn stateless_trim() {
    let lexer = sample_lexer();
    assert_eq!(lexer.trim("  \n 1").digested, 4);
    assert_eq!(lexer.trim("1  ").digested, 0);
    assert_eq!(lexer.trim_with("1  ", |o| o.start(1)).digested, 2);
}

#[test]
fn stateful_lexer_walks_through_text() {
    let mut lexer: Lexer<()> = LexerBuilder::new()
        .ignore_default(ActionList::single(whitespaces()))
        .define(INT, ActionList::single(decimal_integer_literal_with_options(IntegerLiteralBodyOptions::new())))
        .define(KEYWORD, ActionList::single(word("let")))
        .build(" let 12 ");
    let (peeked, _) = lexer.peek();
    assert_eq!(lexer.instant().digested(), 0);
    let out = lexer.lex();
    assert_eq!(peeked.digested, out.digested);
    assert_eq!(out.token.unwrap().kind, KEYWORD);
    assert_eq!(lexer.instant().digested(), 4);

    let snapshot = lexer.snapshot();
    let out = lexer.lex();
    let token = out.token.unwrap();
    assert_eq!(token.kind, INT);
    assert_eq!(token.range, 5..7);
    match token.data {
        ActionData::Integer(data) => assert_eq!(data.value, "12"),
        _ => panic!("expected integer data"),
    }
    assert_eq!(lexer.instant().rest(), " ");

    let out = lexer.lex();
    assert!(out.token.is_none());
    assert_eq!(out.digested, 1);
    assert!(lexer.instant().trimmed());
    assert_eq!(lexer.instant().rest(), "");

    lexer.restore(snapshot);
    assert_eq!(lexer.instant().digested(), 4);
    let out = lexer.lex_with(|o| o.expect(Expectation::from(INT)));
    assert_eq!(out.token.unwrap().kind, INT);
}

#[test]
fn stateful_lexer_trim_twice() {
    let mut lexer: Lexer<()> = LexerBuilder::new()
        .ignore_default(ActionList::single(whitespaces()))
        .build("   x");
    let first = lexer.trim().unwrap();
    assert_eq!(first.digested, 3);
    assert!(lexer.instant().trimmed());
    assert!(lexer.trim().is_none());
    assert_eq!(lexer.instant().rest(), "x");
}

#[test]
fn stateful_lexer_digest_and_state() {
    let mut lexer = LexerBuilder::new()
        .define(INT, ActionList::single(exact("a")))
        .build_with(7u32, "abc");
    lexer.digest_with(1, Some(8));
    assert_eq!(lexer.state, 8);
    assert_eq!(lexer.instant().rest(), "bc");
    lexer.digest_with(0, None);
    assert_eq!(lexer.state, 8);
    assert!(!lexer.instant().trimmed());
    let clone = lexer.clone_with(9);
    assert_eq!(clone.state, 9);
    assert_eq!(clone.instant().digested(), 1);
    let reloaded = clone.reload_with("a", 1);
    assert_eq!(reloaded.instant().text(), "a");
    assert_eq!(reloaded.instant().digested(), 0);
}

#[test]
fn stateful_lexer_with_options() {
    let mut lexer: Lexer<()> = LexerBuilder::new()
        .define(KEYWORD, ActionList::single(exact("+")))
        .define(IDENT, ActionList::single(exact("++")))
        .build("++");
    let (out, _) = lexer.peek_with_options(LexOptions::new().fork());
    assert_eq!(out.fork, Some(ReLexContext { start: 0, skip: 1 }));
    let out = lexer.lex_with_options(LexOptions::new().re_lex(ReLexContext { start: 0, skip: 1 }));
    assert_eq!(out.token.unwrap().kind, IDENT);
    assert!(lexer.instant().trimmed());
}

#[test]
fn json_tokens() {
    let lexer = LexerBuilder::new()
        .ignore_default(ActionList::single(json::whitespaces()))
        .append(ActionList::from(json::boundaries()))
        .define(INT, ActionList::single(json::number(json::NumberOptions::new())))
        .define(KEYWORD, ActionList::single(json::string()))
        .build_stateless();
    let text = "{ \"a\\n\": -1.5e3 }";
    let out = lexer.lex(text);
    assert_eq!(out.token.unwrap().range, 0..1);
    let out = lexer.lex_with_options(text, StatelessLexOptions::new().start(1));
    let token = out.token.unwrap();
    assert_eq!(token.kind, KEYWORD);
    assert_eq!(token.range, 2..7);
    match token.data {
        ActionData::Str(parts) => {
            let value: String = parts.iter().map(|p| p.value.clone()).collect();
            assert_eq!(value, "a\n");
        }
        _ => panic!("expected string data"),
    }
    let out = lexer.lex_with_options(text, StatelessLexOptions::new().start(7));
    assert_eq!(out.token.unwrap().range, 7..8);
    let out = lexer.lex_with_options(text, StatelessLexOptions::new().start(8));
    let token = out.token.unwrap();
    assert_eq!(token.kind, INT);
    assert_eq!(token.range, 9..15);
}

#[test]
fn json_string_escapes() {
    let action = json::string();
    let out = action.exec("\"\\u0041\\t\\/\"x").unwrap();
    assert_eq!(out.digested, 12);
    match out.data {
        ActionData::Str(parts) => {
            let value: String = parts.iter().map(|p| p.value.clone()).collect();
            assert_eq!(value, "A\t/");
            assert!(parts.last().unwrap().close);
        }
        _ => panic!("expected string data"),
    }
}

#[test]
fn core_lexer_agrees_with_stateless_lexer() {
    let actions = LexerBuilder::new()
        .ignore_default(ActionList::single(whitespaces()))
        .define(INT, ActionList::single(decimal_integer_literal_with_options(IntegerLiteralBodyOptions::new())))
        .define(KEYWORD, ActionList::single(word("let")))
        .define(IDENT, ActionList::single(word("letter")));
    let stateless = actions.build_stateless();
    let core = LexerCore::new(stateless.actions().clone());
    let text = " letter 12 let";
    let mut start = 0;
    while start < text.len() {
        let a = stateless.lex_with_options(text, StatelessLexOptions::new().start(start));
        let mut options = LexerCoreLexOptions::new();
        options.start = start;
        let b = core.lex(text, options);
        assert_eq!(a.digested, b.digested);
        let (ta, tb) = (a.token.unwrap(), b.token.unwrap());
        assert_eq!(ta.kind, tb.kind);
        assert_eq!(ta.range, tb.range);
        start += a.digested;
    }
    assert_eq!(core.trim("  \t1", 0), 3);
    assert_eq!(core.trim("  \t1", 3), 0);
    let mut options = LexerCoreLexOptions::new();
    options.expectation = Expectation::from(IDENT);
    let out = core.lex("letter", options);
    assert_eq!(out.token.unwrap().kind, IDENT);
    let cloned = core.clone();
    assert_eq!(cloned.actions().len(), 4);
}

#[test]
fn core_lexer_callback() {
    let muted = exact("a").mute();
    let out = LexerCore::callback(&muted, 3, muted.exec("a").unwrap());
    assert_eq!(out.update_ctx, UpdateContext::Yes { stop: false });
    assert!(out.token.is_none());
    let loud = exact("a");
    let out = LexerCore::callback(&loud, 3, loud.exec("a").unwrap());
    assert_eq!(out.update_ctx, UpdateContext::Yes { stop: true });
    assert_eq!(out.token.unwrap().range, 3..4);
}

#[test]
fn fork_then_re_lex_emits_shorter_token() {
    let text = "Option<Option<()>>";
    let mut lexer: Lexer<()> = LexerBuilder::new()
        .append(ActionList::from(vec![exact(">>"), exact(">")]))
        .ignore(ActionList::single(
            lib::lexer::action::simple::chars(lib::lexer::action::class::CharClass::RangeExcept(
                '\0',
                '\u{10ffff}',
                vec!['>'],
            ))
            .unchecked_head_unknown(),
        ))
        .build(text);
    let before = lexer.snapshot();
    let output = lexer.lex_with(|o| o.fork());
    assert_eq!(&text[output.token.unwrap().range], ">>");
    let context = output.fork.unwrap();

    let mut lexer = lexer.clone_with_snapshot(before);
    let output = lexer.lex_with(|o| o.re_lex(context));
    assert_eq!(&text[output.token.unwrap().range], ">");
}

#[test]
fn stateless_trim_is_idempotent() {
    let lexer = sample_lexer();
    let text = " \t 7 ";
    let first = lexer.trim(text).digested;
    assert_eq!(first, 3);
    let again = lexer.trim_with(text, |o| o.start(first)).digested;
    assert_eq!(again, 0);
}

#[test]
fn into_lexer_with_default_state() {
    use_into_lexer();
}

fn use_into_lexer() {
    let lexer: Lexer<u8> = lib::lexer::lexer::IntoLexer::into_lexer(sample_lexer(), "1");
    assert_eq!(lexer.state, 0);
    assert_eq!(lexer.instant().text(), "1");
    let shared = std::rc::Rc::new(sample_lexer());
    let lexer: Lexer<u8> = lib::lexer::lexer::IntoLexer::into_lexer_with(shared, 5, "x");
    assert_eq!(lexer.state, 5);
}

#[test]
fn stateful_lexer_digest_resets_state_and_reload() {
    let mut lexer = LexerBuilder::new()
        .define(INT, ActionList::single(exact("a")))
        .build_with(7u32, "abc");
    let snapshot = lexer.snapshot();
    assert_eq!(snapshot.state, 7);
    lexer.digest(2);
    assert_eq!(lexer.state, 0);
    assert_eq!(lexer.instant().rest(), "c");
    let lexer = lexer.reload("xyz");
    assert_eq!(lexer.state, 0);
    assert_eq!(lexer.instant().digested(), 0);
    assert_eq!(lexer.instant().text(), "xyz");
}

#[test]
fn stateful_lexer_clone_keeps_progress() {
    let mut lexer = LexerBuilder::new()
        .ignore_default(ActionList::single(whitespaces()))
        .define(INT, ActionList::single(decimal_integer_literal_with_options(IntegerLiteralBodyOptions::new())))
        .build_with(3u8, " 1 2");
    lexer.lex();
    let mut copy = lexer.clone();
    assert_eq!(copy.state, 3);
    assert_eq!(copy.instant().digested(), 2);
    let out = copy.lex();
    assert_eq!(out.token.unwrap().range, 3..4);
    assert_eq!(lexer.instant().digested(), 2);
}

#[test]
fn core_execute_actions_follows_the_callback() {
    let core = LexerCore::new(vec![whitespaces().mute(), word("a").bind(KEYWORD)]);
    let all = Validator { kind: None, literal: None, muted_only: false };

    // the default answers: muted actions go on, others stop with a token
    let out = core.execute_actions(&all, "  a b", 0, |a: &lib::lexer::action::Action, s: usize, o| {
        LexerCore::callback(a, s, o)
    });
    assert_eq!(out.digested, 3);
    assert_eq!(out.token.unwrap().range, 2..3);

    // an answer `No` stops before the action, without counting it
    let out = core.execute_actions(&all, "  a b", 0, |_a: &lib::lexer::action::Action, _s: usize, _o| {
        CallbackOutput { update_ctx: UpdateContext::No, token: None }
    });
    assert_eq!(out.digested, 0);
    assert!(out.token.is_none());

    // going on after every action digests all that is accepted
    let out = core.execute_actions(&all, "  a  a!", 0, |_a: &lib::lexer::action::Action, _s: usize, _o| {
        CallbackOutput { update_ctx: UpdateContext::Yes { stop: false }, token: None }
    });
    assert_eq!(out.digested, 6);
    assert!(out.token.is_none());

    // a start past the end digests nothing
    let out = core.execute_actions(&all, "a", 5, |a: &lib::lexer::action::Action, s: usize, o| {
        LexerCore::callback(a, s, o)
    });
    assert_eq!(out.digested, 0);
    assert!(out.token.is_none());
}

#[test]
fn stateless_trim_options_new() {
    let options = StatelessTrimOptions::new();
    assert_eq!(options.start, 0);
    let lexer = sample_lexer();
    assert_eq!(lexer.trim_with_options("  1", StatelessTrimOptions::new()).digested, 2);
}

#[test]
fn expectation_text_expects_a_literal() {
    let e = Expectation::new().kind(KEYWORD).text("let");
    assert_eq!(e.kind, Some(KEYWORD));
    assert_eq!(e.literal, Some("let"));
}

#[test]
fn stateful_peek_hands_back_a_clone_of_the_state() {
    let mut lexer: Lexer<i32> = LexerBuilder::new()
        .define(KEYWORD, ActionList::single(word("let")))
        .build("let");
    lexer.state = 5;
    let (out, state) = lexer.peek();
    assert_eq!(state, 5);
    assert_eq!(lexer.state, 5);
    assert_eq!(out.digested, 3);
    assert_eq!(lexer.instant().digested(), 0);
}
