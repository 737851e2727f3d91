//! The core lexer: at each position it tries every action that can emit
//! what is expected, in order, with no head-char maps. The stateless lexer
//! yields what it yields wherever the head matchers only turn away actions
//! that would reject anyway.
use crate::lexer::action::{action_digest, head_accepts, Action, ActionOutput};
use crate::lexer::expectation::Expectation;
use crate::lexer::lexer::rc_clone;
use crate::lexer::stateless::lex::{literal_view, start_index};
use crate::lexer::stateless::{all_ids_exec, select_exec, ExecFilter};
use crate::lexer::token::Token;
use crate::text::{
    byte_len, first_char, is_boundary, lemma_byte_len_split, lemma_char_index, str_after, str_len,
    str_starts_with,
};
use std::rc::Rc;
use crate::lexer::stateless::lex::{first_accept, lemma_first_accept_range, lex_spec, trim_candidates, trim_spec};
use crate::lexer::stateless::{
    all_ids, candidates, expected_ids, increasing, keeps, known_char, lemma_select_members, select,
    valid_ids, ActionFilter,
};
use crate::lexer::re_lex::ReLexContext;
use crate::kind::SubKindId;
use crate::text::char_index;
use vstd::prelude::*;

verus! {

/// What a lex of the core lexer from char index `k` of `text` yields: the
/// token, if any, as (the index of the accepted action, the char index
/// where the token starts), and the char index where the lex stops. With
/// `muted_only`, only muted actions are tried (a trim).
///
/// At each position the actions in `ids_at` are tried in order; the first
/// that accepts digests; a muted one lets the lex go on, another one emits
/// the token. The lex stops without token at the end of the text or when
/// no action accepts.
pub open spec fn core_lex_spec(
    actions: Seq<Action>,
    kind: Option<SubKindId>,
    literal: Option<Seq<char>>,
    muted_only: bool,
    text: Seq<char>,
    k: nat,
) -> (Option<(int, nat)>, nat)
    decreases text.len() - k,
{
    if k >= text.len() {
        (None, k)
    } else {
        let rest = text.skip(k as int);
        let ids = core_ids(actions, kind, literal, muted_only, rest);
        match first_accept(actions, ids, 0, rest) {
            None => (None, k),
            Some(j) => {
                let i = ids[j as int] as int;
                let n = char_index(rest, action_digest(actions[i], rest)->0 as int);
                if n <= 0 || k + n > text.len() {
                    (None, k)
                } else if actions[i].muted {
                    core_lex_spec(actions, kind, literal, muted_only, text, (k + n) as nat)
                } else {
                    (Some((i, k)), (k + n) as nat)
                }
            },
        }
    }
}

/// The actions the core lexer tries at `rest`: the muted ones for a trim,
/// else those that can emit what is expected.
pub open spec fn core_ids(
    actions: Seq<Action>,
    kind: Option<SubKindId>,
    literal: Option<Seq<char>>,
    muted_only: bool,
    rest: Seq<char>,
) -> Seq<usize> {
    if muted_only {
        select(actions, all_ids(actions.len()), ActionFilter::Muted)
    } else {
        expected_ids(actions, kind, literal, rest)
    }
}

/// Whether the head matchers of `actions` are sound on `text`: at each
/// position, an action whose head matcher turns away the char there
/// rejects the rest there.
pub open spec fn heads_sound(actions: Seq<Action>, text: Seq<char>) -> bool {
    forall|k: int, i: int|
        0 <= k < text.len() && 0 <= i < actions.len() && !head_accepts(
            actions[i].head,
            text[k],
            known_char(actions, text[k]),
        ) ==> #[trigger] action_digest(actions[i], text.skip(k)) is None
}

/// Whether the action at index `x` accepts `rest`.
pub open spec fn accepts_at(actions: Seq<Action>, x: usize, rest: Seq<char>) -> bool {
    action_digest(actions[x as int], rest) is Some
}

/// The first accepting position from `j0` on is the first position from
/// `j0` on whose action accepts.
pub proof fn lemma_first_accept_char(actions: Seq<Action>, ids: Seq<usize>, j0: nat, rest: Seq<char>)
    ensures
        first_accept(actions, ids, j0, rest) is None <==> forall|m: int|
            j0 <= m < ids.len() ==> !accepts_at(actions, #[trigger] ids[m], rest),
        first_accept(actions, ids, j0, rest) matches Some(j) ==> forall|m: int|
            j0 <= m < j ==> !accepts_at(actions, #[trigger] ids[m], rest),
    decreases ids.len() - j0,
{
    lemma_first_accept_range(actions, ids, j0, rest);
    if j0 < ids.len() && !accepts_at(actions, ids[j0 as int], rest) {
        lemma_first_accept_char(actions, ids, j0 + 1, rest);
    }
}

/// Dropping from an increasing list of action indexes only actions that
/// reject `rest` keeps the first accepting action.
pub proof fn lemma_first_accept_sublist(actions: Seq<Action>, ids: Seq<usize>, f: ActionFilter, rest: Seq<char>)
    requires
        increasing(ids),
        valid_ids(ids, actions.len()),
        forall|m: int|
            0 <= m < ids.len() && !keeps(f, actions[ids[m] as int]) ==> !accepts_at(
                actions,
                #[trigger] ids[m],
                rest,
            ),
    ensures
        ({
            let s = select(actions, ids, f);
            &&& first_accept(actions, s, 0, rest) is None <==> first_accept(actions, ids, 0, rest) is None
            &&& first_accept(actions, s, 0, rest) matches Some(j) ==> (first_accept(actions, ids, 0, rest) matches Some(j2)
                && s[j as int] == ids[j2 as int])
        }),
{
    let s = select(actions, ids, f);
    lemma_select_members(actions, ids, f);
    lemma_first_accept_char(actions, ids, 0, rest);
    lemma_first_accept_char(actions, s, 0, rest);
    lemma_first_accept_range(actions, ids, 0, rest);
    lemma_first_accept_range(actions, s, 0, rest);
    match first_accept(actions, ids, 0, rest) {
        None => {
            assert forall|m: int| 0 <= m < s.len() implies !accepts_at(actions, #[trigger] s[m], rest) by {
                let b = choose|b: int| 0 <= b < ids.len() && ids[b] == s[m];
                assert(!accepts_at(actions, ids[b], rest));
            }
        },
        Some(j2) => {
            let x = ids[j2 as int];
            assert(accepts_at(actions, x, rest));
            assert(keeps(f, actions[x as int]));
            assert(ids.contains(x));
            assert(s.contains(x));
            let j = choose|j: int| 0 <= j < s.len() && s[j] == x;
            assert forall|m: int| 0 <= m < j implies !accepts_at(actions, #[trigger] s[m], rest) by {
                let b = choose|b: int| 0 <= b < ids.len() && ids[b] == s[m];
                assert(s[m] < s[j]);
                if b >= j2 {
                    if b > j2 {
                        assert(ids[j2 as int] < ids[b]);
                    }
                }
                assert(b < j2);
            }
            assert(first_accept(actions, s, 0, rest) is Some);
            let jj = first_accept(actions, s, 0, rest)->0;
            if jj < j {
                assert(!accepts_at(actions, s[jj as int], rest));
            }
            if jj > j {
                assert(!accepts_at(actions, s[j], rest));
            }
            assert(jj == j);
        },
    }
}

/// The indexes `0..n` are increasing and valid.
proof fn lemma_all_ids(n: nat)
    requires
        n <= usize::MAX,
    ensures
        increasing(all_ids(n)),
        valid_ids(all_ids(n), n),
        forall|x: usize| all_ids(n).contains(x) <==> x < n,
{
    assert forall|x: usize| all_ids(n).contains(x) <==> x < n by {
        if x < n {
            assert(all_ids(n)[x as int] == x);
        }
    }
    assert forall|a: int, b: int| 0 <= a < b < all_ids(n).len() implies all_ids(n)[a] < all_ids(n)[b] by {}
}

/// The expected actions are increasing and valid.
proof fn lemma_expected_ids(
    actions: Seq<Action>,
    kind: Option<SubKindId>,
    literal: Option<Seq<char>>,
    rest: Seq<char>,
)
    requires
        actions.len() <= usize::MAX,
    ensures
        increasing(expected_ids(actions, kind, literal, rest)),
        valid_ids(expected_ids(actions, kind, literal, rest), actions.len()),
{
    let n = actions.len();
    let all = all_ids(n);
    lemma_all_ids(n);
    let s0 = match kind {
        Some(k) => select(actions, all, ActionFilter::Kind(k)),
        None => all,
    };
    match kind {
        Some(k) => {
            lemma_select_members(actions, all, ActionFilter::Kind(k));
            crate::lexer::stateless::lemma_select_valid(actions, all, ActionFilter::Kind(k), n);
        },
        None => {},
    }
    match literal {
        Some(l) => {
            lemma_select_members(actions, s0, ActionFilter::Literal(l));
            lemma_select_members(actions, s0, ActionFilter::Muted);
            crate::lexer::stateless::lemma_select_valid(actions, s0, ActionFilter::Literal(l), n);
            crate::lexer::stateless::lemma_select_valid(actions, s0, ActionFilter::Muted, n);
        },
        None => {},
    }
}

/// Head matchers are only a shortcut: where they are sound on the text, a
/// lex of the stateless lexer (with no actions skipped by a re-lex) accepts
/// the same actions at the same positions as the core lexer, which tries
/// every action that can emit what is expected, and stops at the same
/// place.
pub proof fn law_stateless_lex_is_core_lex(
    actions: Seq<Action>,
    kind: Option<SubKindId>,
    literal: Option<Seq<char>>,
    re_lex: ReLexContext,
    text: Seq<char>,
    k: nat,
)
    requires
        actions.len() <= usize::MAX,
        heads_sound(actions, text),
        re_lex.skip == 0,
    ensures
        ({
            let (t1, k1) = lex_spec(actions, kind, literal, re_lex, text, k);
            let (t2, k2) = core_lex_spec(actions, kind, literal, false, text, k);
            &&& k1 == k2
            &&& t1 is None <==> t2 is None
            &&& t1 matches Some((i, j, c, ks)) ==> t2 == Some((i, ks))
        }),
    decreases text.len() - k,
{
    if k < text.len() {
        let rest = text.skip(k as int);
        let e = expected_ids(actions, kind, literal, rest);
        let h = ActionFilter::Head(rest[0], known_char(actions, rest[0]));
        lemma_expected_ids(actions, kind, literal, rest);
        assert(rest[0] == text[k as int]);
        assert forall|m: int| 0 <= m < e.len() && !keeps(h, actions[e[m] as int]) implies !accepts_at(
            actions,
            #[trigger] e[m],
            rest,
        ) by {
            assert(action_digest(actions[e[m] as int], text.skip(k as int)) is None);
        }
        lemma_first_accept_sublist(actions, e, h, rest);
        assert(candidates(actions, kind, literal, rest) == select(actions, e, h));
        let from: nat = if crate::text::byte_len(text.take(k as int)) == re_lex.start {
            re_lex.skip as nat
        } else {
            0
        };
        assert(from == 0);
        match first_accept(actions, e, 0, rest) {
            None => {},
            Some(j2) => {
                let i = e[j2 as int] as int;
                let n = char_index(rest, action_digest(actions[i], rest)->0 as int);
                if n > 0 && k + n <= text.len() && actions[i].muted {
                    law_stateless_lex_is_core_lex(actions, kind, literal, re_lex, text, (k + n) as nat);
                }
            },
        }
    }
}

/// Where the head matchers are sound on the text, a trim of the stateless
/// lexer stops where a trim of the core lexer stops.
pub proof fn law_stateless_trim_is_core_trim(actions: Seq<Action>, text: Seq<char>, k: nat)
    requires
        actions.len() <= usize::MAX,
        heads_sound(actions, text),
    ensures
        trim_spec(actions, text, k) == core_lex_spec(actions, None, None, true, text, k).1,
        core_lex_spec(actions, None, None, true, text, k).0 is None,
    decreases text.len() - k,
{
    if k < text.len() {
        let rest = text.skip(k as int);
        let n_all = actions.len();
        let all = all_ids(n_all);
        lemma_all_ids(n_all);
        let m = select(actions, all, ActionFilter::Muted);
        lemma_select_members(actions, all, ActionFilter::Muted);
        crate::lexer::stateless::lemma_select_valid(actions, all, ActionFilter::Muted, n_all);
        let h = ActionFilter::Head(rest[0], known_char(actions, rest[0]));
        assert(rest[0] == text[k as int]);
        assert forall|q: int| 0 <= q < m.len() && !keeps(h, actions[m[q] as int]) implies !accepts_at(
            actions,
            #[trigger] m[q],
            rest,
        ) by {
            assert(action_digest(actions[m[q] as int], text.skip(k as int)) is None);
        }
        lemma_first_accept_sublist(actions, m, h, rest);
        assert(trim_candidates(actions, rest) == select(actions, m, h));
        match first_accept(actions, m, 0, rest) {
            None => {},
            Some(j2) => {
                let i = m[j2 as int] as int;
                lemma_first_accept_range(actions, m, 0, rest);
                assert(m.contains(m[j2 as int]));
                assert(actions[i].muted);
                let n = char_index(rest, action_digest(actions[i], rest)->0 as int);
                if n > 0 && k + n <= text.len() {
                    law_stateless_trim_is_core_trim(actions, text, (k + n) as nat);
                }
            },
        }
    }
}


/// Which actions the core lexer tries: with `muted_only`, the muted ones;
/// else those of the expected kind (if any) and, if a literal is expected,
/// those with that literal when the rest starts with it; muted actions pass
/// both tests.
#[derive(Clone, Copy, Debug)]
pub struct Validator<'literal> {
    /// The expected kind.
    pub kind: Option<SubKindId>,
    /// The expected literal.
    pub literal: Option<&'literal str>,
    /// Whether only muted actions are tried.
    pub muted_only: bool,
}

/// What to do with the progress after an accepted action.
#[derive(Clone, Copy, Debug, PartialEq, Eq, Structural)]
pub enum UpdateContext {
    /// Count what the action digested, and stop or go on.
    Yes { stop: bool },
    /// Stop without counting it.
    No,
}

/// What an accepted action leads to: the progress update and the token.
#[derive(Debug)]
pub struct CallbackOutput {
    /// The progress update.
    pub update_ctx: UpdateContext,
    /// The emitted token, if any.
    pub token: Option<Token>,
}

/// Options of a lex of the core lexer.
#[derive(Clone, Copy, Debug)]
pub struct LexerCoreLexOptions<'literal> {
    /// The byte offset to start at.
    pub start: usize,
    /// What the lex is expected to emit.
    pub expectation: Expectation<'literal>,
}

impl<'literal> LexerCoreLexOptions<'literal> {
    /// Start at `0` with no expectation.
    pub fn new() -> (r: Self)
        ensures
            r.start == 0,
            r.expectation == (Expectation::<'literal> { kind: None, literal: None }),
    {
        LexerCoreLexOptions { start: 0, expectation: Expectation::new() }
    }
}

/// The output of a lex of the core lexer.
#[derive(Debug)]
pub struct LexerCoreLexOutput {
    /// The emitted token, if any.
    pub token: Option<Token>,
    /// The digested bytes, muted ones included.
    pub digested: usize,
}

/// The output of a trim that hands on the lexer that was trimmed.
#[derive(Debug)]
pub struct IntoTrimmedOutput<TokenType, TrimmedLexer> {
    /// The digested bytes.
    pub digested: usize,
    /// The tokens with an error met while trimming.
    pub errors: Vec<TokenType>,
    /// The trimmed lexer.
    pub trimmed: TrimmedLexer,
}

/// Whether `r` is the output of a core lex of `text` from byte offset
/// `start`: see [`core_lex_spec`].
pub open spec fn core_output_spec(
    actions: Seq<Action>,
    kind: Option<SubKindId>,
    literal: Option<Seq<char>>,
    muted_only: bool,
    text: Seq<char>,
    start: nat,
    r: LexerCoreLexOutput,
) -> bool {
    let k0 = start_index(text, start);
    let (tok, k1) = core_lex_spec(actions, kind, literal, muted_only, text, k0);
    let s0 = byte_len(text.take(k0 as int));
    let s1 = byte_len(text.take(k1 as int));
    &&& r.digested == s1 - s0
    &&& match tok {
        None => r.token is None,
        Some((i, ks)) => r.token matches Some(t) && {
            &&& t.kind == actions[i].kind
            &&& t.range.start == byte_len(text.take(ks as int))
            &&& t.range.end == s1
            &&& actions[i].matcher.spec_data(text.skip(ks as int), t.data)
        },
    }
}

/// One step of a core lex with a callback: (the char index where it
/// starts, the index of the accepted action, its output, the callback's
/// answer).
pub type CoreStep = (nat, int, ActionOutput, CallbackOutput);

/// Whether `step` is a step of a core lex of `text` with `callback`: at its
/// char index (inside the text), its action is the first of those the
/// validator lets through that accepts the rest there, its output is what
/// that action yields there, and the callback may answer its answer when
/// handed the action, the byte offset and the output.
pub open spec fn core_step_ok<C: Fn(&Action, usize, ActionOutput) -> CallbackOutput>(
    actions: Seq<Action>,
    kind: Option<SubKindId>,
    literal: Option<Seq<char>>,
    muted_only: bool,
    text: Seq<char>,
    callback: C,
    step: CoreStep,
) -> bool {
    let (k, i, o, c) = step;
    let rest = text.skip(k as int);
    let ids = core_ids(actions, kind, literal, muted_only, rest);
    &&& k < text.len()
    &&& first_accept(actions, ids, 0, rest) matches Some(j) && ids[j as int] == i
    &&& 0 <= i < actions.len()
    &&& action_digest(actions[i], rest) == Some(o.digested as nat)
    &&& actions[i].matcher.spec_data(rest, o.data)
    &&& call_ensures(callback, (&actions[i], byte_len(text.take(k as int)) as usize, o), c)
}

/// The char index after the chars that the action of `step` digested.
pub open spec fn core_step_end(text: Seq<char>, step: CoreStep) -> nat {
    (step.0 + char_index(text.skip(step.0 as int), step.2.digested as int)) as nat
}

/// Whether the callback's answer lets the lex go on.
pub open spec fn goes_on(c: CallbackOutput) -> bool {
    c.update_ctx == (UpdateContext::Yes { stop: false })
}

/// Whether `r` is the output of a core lex of `text` from byte offset
/// `start` with `callback`, through the steps `steps`: the steps follow
/// each other, each starting where the last one's action ended, and all but
/// the last let the lex go on. Then:
/// - if the last step's answer is `No`, the lex stops before its action,
///   with the answer's token;
/// - if it is `Yes { stop: true }`, the lex stops after its action, with
///   the answer's token;
/// - else the lex stops without token where the next step would start,
///   which is the end of the text or a position where no action the
///   validator lets through accepts.
///
/// The digested bytes run from `start` to where the lex stops.
pub open spec fn core_callback_output<C: Fn(&Action, usize, ActionOutput) -> CallbackOutput>(
    actions: Seq<Action>,
    kind: Option<SubKindId>,
    literal: Option<Seq<char>>,
    muted_only: bool,
    text: Seq<char>,
    start: nat,
    callback: C,
    steps: Seq<CoreStep>,
    r: LexerCoreLexOutput,
) -> bool {
    let k0 = start_index(text, start);
    let s0 = byte_len(text.take(k0 as int));
    let n = steps.len();
    &&& forall|m: int| 0 <= m < n ==> #[trigger] core_step_ok(actions, kind, literal, muted_only, text, callback, steps[m])
    &&& n > 0 ==> steps[0].0 == k0
    &&& forall|m: int| 0 <= m < n - 1 ==> goes_on(#[trigger] steps[m].3) && steps[m + 1].0 == core_step_end(text, steps[m])
    &&& if n > 0 && steps[n - 1].3.update_ctx == UpdateContext::No {
        &&& r.token == steps[n - 1].3.token
        &&& r.digested == byte_len(text.take(steps[n - 1].0 as int)) - s0
    } else if n > 0 && steps[n - 1].3.update_ctx == (UpdateContext::Yes { stop: true }) {
        &&& r.token == steps[n - 1].3.token
        &&& r.digested == byte_len(text.take(core_step_end(text, steps[n - 1]) as int)) - s0
    } else {
        let k = if n == 0 { k0 } else { core_step_end(text, steps[n - 1]) };
        let rest = text.skip(k as int);
        &&& r.token is None
        &&& r.digested == byte_len(text.take(k as int)) - s0
        &&& (k >= text.len() || first_accept(actions, core_ids(actions, kind, literal, muted_only, rest), 0, rest) is None)
    }
}

/// The answer of [`LexerCore::callback`] for `action`, accepted at byte
/// offset `start` with `output`: a muted action lets the lex go on without
/// token; another one stops it after its digested bytes, with its token.
pub open spec fn default_answer(action: Action, start: usize, output: ActionOutput) -> CallbackOutput {
    if action.muted {
        CallbackOutput { update_ctx: UpdateContext::Yes { stop: false }, token: None }
    } else {
        CallbackOutput {
            update_ctx: UpdateContext::Yes { stop: true },
            token: Some(
                Token {
                    kind: action.kind,
                    data: output.data,
                    range: std::ops::Range { start, end: (start + output.digested) as usize },
                },
            ),
        }
    }
}

/// Whether every answer `callback` may give is the default answer.
pub open spec fn answers_by_default<C: Fn(&Action, usize, ActionOutput) -> CallbackOutput>(callback: C) -> bool {
    forall|a: &Action, s: usize, o: ActionOutput, c: CallbackOutput|
        #[trigger] call_ensures(callback, (a, s, o), c) ==> c == default_answer(*a, s, o)
}

/// One step with the default answer: a muted action leaves the core lex
/// from its char index that of the char index after it; another one is the
/// token of that lex.
proof fn lemma_default_step<C: Fn(&Action, usize, ActionOutput) -> CallbackOutput>(
    actions: Seq<Action>,
    kind: Option<SubKindId>,
    literal: Option<Seq<char>>,
    muted_only: bool,
    text: Seq<char>,
    callback: C,
    step: CoreStep,
)
    requires
        answers_by_default(callback),
        core_step_ok(actions, kind, literal, muted_only, text, callback, step),
    ensures
        ({
            let (k, i, o, c) = step;
            let e = core_step_end(text, step);
            &&& k < e <= text.len()
            &&& byte_len(text.take(e as int)) == byte_len(text.take(k as int)) + o.digested
            &&& c == default_answer(actions[i], byte_len(text.take(k as int)) as usize, o)
            &&& actions[i].muted ==> core_lex_spec(actions, kind, literal, muted_only, text, k)
                == core_lex_spec(actions, kind, literal, muted_only, text, e)
            &&& !actions[i].muted ==> core_lex_spec(actions, kind, literal, muted_only, text, k) == (
                Some((i, k)),
                e,
            )
        }),
{
    let (k, i, o, c) = step;
    let rest = text.skip(k as int);
    crate::lexer::stateless::lex::lemma_accept_chars(actions, i, rest);
    let n = char_index(rest, o.digested as int);
    crate::lexer::stateless::lex::lemma_advance(text, k as int, n);
    assert(rest.take(n) == text.skip(k as int).take(n));
    let s = byte_len(text.take(k as int)) as usize;
    assert(call_ensures(callback, (&actions[i], s, o), c));
}

/// Along the steps of a core lex with the default answers, all but the
/// last are muted, and the core lex from the first step's char index is
/// that from the `m`-th one.
proof fn lemma_default_steps<C: Fn(&Action, usize, ActionOutput) -> CallbackOutput>(
    actions: Seq<Action>,
    kind: Option<SubKindId>,
    literal: Option<Seq<char>>,
    muted_only: bool,
    text: Seq<char>,
    start: nat,
    callback: C,
    steps: Seq<CoreStep>,
    r: LexerCoreLexOutput,
    m: int,
)
    requires
        answers_by_default(callback),
        0 <= m < steps.len(),
        core_callback_output(actions, kind, literal, muted_only, text, start, callback, steps, r),
    ensures
        core_lex_spec(actions, kind, literal, muted_only, text, start_index(text, start)) == core_lex_spec(
            actions,
            kind,
            literal,
            muted_only,
            text,
            steps[m].0,
        ),
    decreases m,
{
    if m > 0 {
        lemma_default_steps(actions, kind, literal, muted_only, text, start, callback, steps, r, m - 1);
        let st = steps[m - 1];
        assert(core_step_ok(actions, kind, literal, muted_only, text, callback, st));
        assert(goes_on(steps[m - 1].3));
        lemma_default_step(actions, kind, literal, muted_only, text, callback, st);
        assert(actions[st.1].muted);
    }
}

/// The core lex stops without token at the end of the text and where no
/// action it tries accepts.
proof fn lemma_core_lex_stops(
    actions: Seq<Action>,
    kind: Option<SubKindId>,
    literal: Option<Seq<char>>,
    muted_only: bool,
    text: Seq<char>,
    k: nat,
)
    requires
        k >= text.len() || first_accept(
            actions,
            core_ids(actions, kind, literal, muted_only, text.skip(k as int)),
            0,
            text.skip(k as int),
        ) is None,
    ensures
        core_lex_spec(actions, kind, literal, muted_only, text, k) == (None::<(int, nat)>, k),
{
}

/// A core lex whose callback answers as [`LexerCore::callback`] does
/// (muted actions let it go on, the first other accepted action stops it
/// with its token) yields the core lex of [`core_output_spec`].
pub proof fn law_default_callback_run<C: Fn(&Action, usize, ActionOutput) -> CallbackOutput>(
    actions: Seq<Action>,
    kind: Option<SubKindId>,
    literal: Option<Seq<char>>,
    muted_only: bool,
    text: Seq<char>,
    start: nat,
    callback: C,
    steps: Seq<CoreStep>,
    r: LexerCoreLexOutput,
)
    requires
        byte_len(text) <= usize::MAX,
        answers_by_default(callback),
        core_callback_output(actions, kind, literal, muted_only, text, start, callback, steps, r),
    ensures
        core_output_spec(actions, kind, literal, muted_only, text, start, r),
{
    if steps.len() == 0 {
        lemma_default_no_steps(actions, kind, literal, muted_only, text, start, callback, steps, r);
    } else if actions[steps.last().1].muted {
        lemma_default_muted_last(actions, kind, literal, muted_only, text, start, callback, steps, r);
    } else {
        lemma_default_loud_last(actions, kind, literal, muted_only, text, start, callback, steps, r);
    }
}

/// [`law_default_callback_run`] with no step.
proof fn lemma_default_no_steps<C: Fn(&Action, usize, ActionOutput) -> CallbackOutput>(
    actions: Seq<Action>,
    kind: Option<SubKindId>,
    literal: Option<Seq<char>>,
    muted_only: bool,
    text: Seq<char>,
    start: nat,
    callback: C,
    steps: Seq<CoreStep>,
    r: LexerCoreLexOutput,
)
    requires
        core_callback_output(actions, kind, literal, muted_only, text, start, callback, steps, r),
        steps.len() == 0,
    ensures
        core_output_spec(actions, kind, literal, muted_only, text, start, r),
{
    lemma_core_lex_stops(actions, kind, literal, muted_only, text, start_index(text, start));
}

/// [`law_default_callback_run`] where the last step is muted.
proof fn lemma_default_muted_last<C: Fn(&Action, usize, ActionOutput) -> CallbackOutput>(
    actions: Seq<Action>,
    kind: Option<SubKindId>,
    literal: Option<Seq<char>>,
    muted_only: bool,
    text: Seq<char>,
    start: nat,
    callback: C,
    steps: Seq<CoreStep>,
    r: LexerCoreLexOutput,
)
    requires
        answers_by_default(callback),
        core_callback_output(actions, kind, literal, muted_only, text, start, callback, steps, r),
        steps.len() > 0,
        actions[steps.last().1].muted,
    ensures
        core_output_spec(actions, kind, literal, muted_only, text, start, r),
{
    let n = steps.len() as int;
    lemma_default_steps(actions, kind, literal, muted_only, text, start, callback, steps, r, n - 1);
    let last = steps[n - 1];
    assert(steps.last() == last);
    assert(core_step_ok(actions, kind, literal, muted_only, text, callback, last));
    lemma_default_step(actions, kind, literal, muted_only, text, callback, last);
    let e = core_step_end(text, last);
    lemma_core_lex_stops(actions, kind, literal, muted_only, text, e);
}

/// [`law_default_callback_run`] where the last step is not muted.
proof fn lemma_default_loud_last<C: Fn(&Action, usize, ActionOutput) -> CallbackOutput>(
    actions: Seq<Action>,
    kind: Option<SubKindId>,
    literal: Option<Seq<char>>,
    muted_only: bool,
    text: Seq<char>,
    start: nat,
    callback: C,
    steps: Seq<CoreStep>,
    r: LexerCoreLexOutput,
)
    requires
        byte_len(text) <= usize::MAX,
        answers_by_default(callback),
        core_callback_output(actions, kind, literal, muted_only, text, start, callback, steps, r),
        steps.len() > 0,
        !actions[steps.last().1].muted,
    ensures
        core_output_spec(actions, kind, literal, muted_only, text, start, r),
{
    let n = steps.len() as int;
    lemma_default_steps(actions, kind, literal, muted_only, text, start, callback, steps, r, n - 1);
    let last = steps[n - 1];
    assert(steps.last() == last);
    assert(core_step_ok(actions, kind, literal, muted_only, text, callback, last));
    lemma_default_step(actions, kind, literal, muted_only, text, callback, last);
    let e = core_step_end(text, last);
    crate::text::lemma_byte_len_take_mono(text, e as int, text.len() as int);
    assert(text.take(text.len() as int) == text);
    let s = byte_len(text.take(last.0 as int)) as usize;
    let t = Token {
        kind: actions[last.1].kind,
        data: last.2.data,
        range: std::ops::Range { start: s, end: (s + last.2.digested) as usize },
    };
    assert(last.3 == default_answer(actions[last.1], s, last.2));
    assert(r.token == Some(t));
    assert(core_lex_spec(actions, kind, literal, muted_only, text, start_index(text, start)) == (
        Some((last.1, last.0)),
        e,
    ));
}

/// The core lexer: a shared list of actions.
#[derive(Debug)]
pub struct LexerCore {
    actions: Rc<Vec<Action>>,
}

impl Clone for LexerCore {
    fn clone(&self) -> (r: Self)
        ensures
            r.spec_actions() == self.spec_actions(),
    {
        LexerCore { actions: rc_clone(&self.actions) }
    }
}

impl LexerCore {
    /// The actions, in order.
    pub closed spec fn spec_actions(&self) -> Seq<Action> {
        (*self.actions)@
    }

    /// A core lexer with the given actions.
    pub fn new(actions: Vec<Action>) -> (r: Self)
        ensures
            r.spec_actions() == actions@,
    {
        LexerCore { actions: Rc::new(actions) }
    }

    /// The actions.
    pub fn actions(&self) -> (r: &Vec<Action>)
        ensures
            r@ == self.spec_actions(),
    {
        &self.actions
    }

    /// The token of an accepted action of kind `kind` that starts at byte
    /// offset `start`.
    pub fn output2token(kind: SubKindId, start: usize, output: ActionOutput) -> (r: Token)
        requires
            start + output.digested <= usize::MAX,
        ensures
            r.kind == kind,
            r.range.start == start,
            r.range.end == start + output.digested,
            r.data == output.data,
    {
        Token { kind, data: output.data, range: start..start + output.digested }
    }

    /// What an accepted action leads to: a muted one lets the lex go on,
    /// another one stops it with its token.
    pub fn callback(action: &Action, start: usize, output: ActionOutput) -> (r: CallbackOutput)
        requires
            start + output.digested <= usize::MAX,
        ensures
            action.muted ==> r.update_ctx == (UpdateContext::Yes { stop: false }) && r.token is None,
            !action.muted ==> r.update_ctx == (UpdateContext::Yes { stop: true }) && (r.token matches Some(t) && {
                &&& t.kind == action.kind
                &&& t.range.start == start
                &&& t.range.end == start + output.digested
                &&& t.data == output.data
            }),
            r == default_answer(*action, start, output),
    {
        if action.muted {
            CallbackOutput { update_ctx: UpdateContext::Yes { stop: false }, token: None }
        } else {
            CallbackOutput {
                update_ctx: UpdateContext::Yes { stop: true },
                token: Some(Self::output2token(action.kind, start, output)),
            }
        }
    }

    /// The actions the validator lets the lexer try at `rest`.
    fn ids_at(&self, validator: &Validator, rest: &str) -> (r: Vec<usize>)
        ensures
            r@ == core_ids(self.spec_actions(), validator.kind, literal_view(validator.literal), validator.muted_only, rest@),
            valid_ids(r@, self.spec_actions().len()),
    {
        let actions: &Vec<Action> = &self.actions;
        let all = all_ids_exec(actions.len());
        proof {
            lemma_all_ids(actions@.len());
        }
        if validator.muted_only {
            return select_exec(actions, &all, &ExecFilter::Muted);
        }
        let s0 = match validator.kind {
            Some(k) => select_exec(actions, &all, &ExecFilter::Kind(k)),
            None => all,
        };
        match validator.literal {
            Some(l) => if str_starts_with(rest, l) {
                select_exec(actions, &s0, &ExecFilter::Literal(l))
            } else {
                select_exec(actions, &s0, &ExecFilter::Muted)
            },
            None => s0,
        }
    }

    /// The first of `ids` whose action accepts `rest`: its position and the output.
    fn first_accept_exec(&self, ids: &Vec<usize>, rest: &str) -> (r: Option<(usize, ActionOutput)>)
        requires
            valid_ids(ids@, self.spec_actions().len()),
        ensures
            r is None <==> first_accept(self.spec_actions(), ids@, 0, rest@) is None,
            r matches Some((j, o)) ==> {
                let i = ids@[j as int] as int;
                &&& first_accept(self.spec_actions(), ids@, 0, rest@) == Some(j as nat)
                &&& j < ids@.len()
                &&& action_digest(self.spec_actions()[i], rest@) == Some(o.digested as nat)
                &&& self.spec_actions()[i].matcher.spec_data(rest@, o.data)
            },
    {
        let actions: &Vec<Action> = &self.actions;
        let mut j: usize = 0;
        while j < ids.len()
            invariant
                valid_ids(ids@, actions@.len()),
                actions@ == self.spec_actions(),
                first_accept(actions@, ids@, 0, rest@) == first_accept(actions@, ids@, j as nat, rest@),
            decreases ids@.len() - j,
        {
            let i = ids[j];
            match actions[i].exec(rest) {
                Some(o) => {
                    return Some((j, o));
                },
                None => {},
            }
            j = j + 1;
        }
        None
    }

    /// Lex `text` from byte offset `start`, trying at each position the
    /// actions that `validator` lets through, in order, with the answers of
    /// [`Self::callback`]: see [`core_output_spec`].
    fn run(&self, validator: &Validator, text: &str, start: usize) -> (r: LexerCoreLexOutput)
        requires
            is_boundary(text@, start as int) || start >= byte_len(text@),
        ensures
            core_output_spec(
                self.spec_actions(),
                validator.kind,
                literal_view(validator.literal),
                validator.muted_only,
                text@,
                start as nat,
                r,
            ),
    {
        // the text's byte length fits in a `usize`
        let _ = str_len(text);
        let callback = |a: &Action, s: usize, o: ActionOutput| -> (c: CallbackOutput)
            requires
                s + o.digested <= usize::MAX,
            ensures
                c == default_answer(*a, s, o),
            { Self::callback(a, s, o) };
        proof {
            assert(answers_by_default(callback));
        }
        let r = self.execute_actions(validator, text, start, callback);
        proof {
            let steps = choose|steps: Seq<CoreStep>| #[trigger] core_callback_output(
                self.spec_actions(),
                validator.kind,
                literal_view(validator.literal),
                validator.muted_only,
                text@,
                start as nat,
                callback,
                steps,
                r,
            );
            law_default_callback_run(
                self.spec_actions(),
                validator.kind,
                literal_view(validator.literal),
                validator.muted_only,
                text@,
                start as nat,
                callback,
                steps,
                r,
            );
        }
        r
    }

    /// Lex `text` from byte offset `start`: at each position, hand the first
    /// action that `validator` lets through and that accepts, with the byte
    /// offset and its output, to `callback`, whose answer says whether to
    /// count what the action digested, whether to stop, and the token. See
    /// [`core_callback_output`].
    pub fn execute_actions<C: Fn(&Action, usize, ActionOutput) -> CallbackOutput>(
        &self,
        validator: &Validator,
        text: &str,
        start: usize,
        callback: C,
    ) -> (r: LexerCoreLexOutput)
        requires
            is_boundary(text@, start as int) || start >= byte_len(text@),
            forall|a: &Action, s: usize, o: ActionOutput|
                s + o.digested <= usize::MAX ==> call_requires(callback, (a, s, o)),
        ensures
            exists|steps: Seq<CoreStep>| #[trigger] core_callback_output(
                self.spec_actions(),
                validator.kind,
                literal_view(validator.literal),
                validator.muted_only,
                text@,
                start as nat,
                callback,
                steps,
                r,
            ),
    {
        let ghost actions = self.spec_actions();
        let ghost t = text@;
        let ghost kind = validator.kind;
        let ghost lit = literal_view(validator.literal);
        let ghost mo = validator.muted_only;
        let total = str_len(text);
        let ghost k0 = start_index(t, start as nat);
        if start >= total {
            let r = LexerCoreLexOutput { token: None, digested: 0 };
            proof {
                crate::text::lemma_byte_len_take_mono(t, k0 as int, t.len() as int);
                assert(t.take(t.len() as int) == t);
                assert(core_callback_output(actions, kind, lit, mo, t, start as nat, callback, Seq::empty(), r));
            }
            return r;
        }
        proof {
            lemma_char_index(t, char_index(t, start as int));
            lemma_byte_len_split(t, k0 as int);
        }
        let mut digested: usize = 0;
        let ghost mut k: nat = k0;
        let ghost mut steps: Seq<CoreStep> = Seq::empty();
        loop
            invariant
                actions == self.spec_actions(),
                t == text@,
                total == byte_len(t),
                kind == validator.kind,
                lit == literal_view(validator.literal),
                mo == validator.muted_only,
                k0 <= k <= t.len(),
                byte_len(t.take(k0 as int)) == start,
                byte_len(t.take(k as int)) == start + digested,
                k0 == start_index(t, start as nat),
                forall|a: &Action, s: usize, o: ActionOutput|
                    s + o.digested <= usize::MAX ==> call_requires(callback, (a, s, o)),
                forall|m: int| 0 <= m < steps.len() ==> #[trigger] core_step_ok(actions, kind, lit, mo, t, callback, steps[m]),
                steps.len() > 0 ==> steps[0].0 == k0,
                forall|m: int| 0 <= m < steps.len() - 1 ==> goes_on(#[trigger] steps[m].3) && steps[m + 1].0
                    == core_step_end(t, steps[m]),
                steps.len() == 0 ==> k == k0,
                steps.len() > 0 ==> goes_on(steps.last().3) && k == core_step_end(t, steps.last()),
            decreases t.len() - k,
        {
            proof {
                lemma_byte_len_split(t, k as int);
                lemma_char_index(t, k as int);
            }
            let pos = start + digested;
            if pos >= total {
                let r = LexerCoreLexOutput { token: None, digested };
                proof {
                    if k < t.len() {
                        crate::text::lemma_byte_len_take_mono(t, k as int, t.len() as int);
                        assert(t.take(t.len() as int) == t);
                    }
                    assert(core_callback_output(actions, kind, lit, mo, t, start as nat, callback, steps, r));
                }
                return r;
            }
            proof {
                if k >= t.len() {
                    assert(t.take(k as int) == t);
                }
            }
            let rest = str_after(text, pos);
            assert(rest@ == t.skip(k as int));
            let ids = self.ids_at(validator, rest);
            match self.first_accept_exec(&ids, rest) {
                None => {
                    let r = LexerCoreLexOutput { token: None, digested };
                    proof {
                        assert(core_callback_output(actions, kind, lit, mo, t, start as nat, callback, steps, r));
                    }
                    return r;
                },
                Some((j, o)) => {
                    let action_index = ids[j];
                    let ghost i = action_index as int;
                    let ghost n = char_index(rest@, o.digested as int);
                    proof {
                        crate::lexer::stateless::lex::lemma_accept_chars(actions, i, rest@);
                        crate::lexer::stateless::lex::lemma_advance(t, k as int, n);
                        lemma_byte_len_split(t, (k + n) as int);
                        lemma_byte_len_split(rest@, n);
                    }
                    let d = o.digested;
                    let ghost og = o;
                    let out = callback(&self.actions[action_index], pos, o);
                    let ghost step: CoreStep = (k, i, og, out);
                    proof {
                        assert(core_step_ok(actions, kind, lit, mo, t, callback, step));
                        assert(core_step_end(t, step) == k + n);
                        let old_steps = steps;
                        steps = steps.push(step);
                        assert forall|m: int| 0 <= m < steps.len() implies #[trigger] core_step_ok(
                            actions,
                            kind,
                            lit,
                            mo,
                            t,
                            callback,
                            steps[m],
                        ) by {
                            if m < old_steps.len() {
                                assert(steps[m] == old_steps[m]);
                            }
                        }
                        assert forall|m: int| 0 <= m < steps.len() - 1 implies goes_on(#[trigger] steps[m].3)
                            && steps[m + 1].0 == core_step_end(t, steps[m]) by {
                            assert(steps[m] == old_steps[m]);
                            if m + 1 < old_steps.len() {
                                assert(steps[m + 1] == old_steps[m + 1]);
                            }
                        }
                    }
                    match out.update_ctx {
                        UpdateContext::Yes { stop: false } => {
                            digested = digested + d;
                            proof {
                                k = (k + n) as nat;
                            }
                            continue;
                        },
                        UpdateContext::Yes { stop: true } => {
                            digested = digested + d;
                            let r = LexerCoreLexOutput { token: out.token, digested };
                            proof {
                                assert(core_callback_output(actions, kind, lit, mo, t, start as nat, callback, steps, r));
                            }
                            return r;
                        },
                        UpdateContext::No => {
                            let r = LexerCoreLexOutput { token: out.token, digested };
                            proof {
                                assert(core_callback_output(actions, kind, lit, mo, t, start as nat, callback, steps, r));
                            }
                            return r;
                        },
                    }
                },
            }
        }
    }

    /// Lex `text` with the options: the actions that can emit what is
    /// expected are tried in order at each position.
    pub fn lex(&self, text: &str, options: LexerCoreLexOptions) -> (r: LexerCoreLexOutput)
        requires
            is_boundary(text@, options.start as int) || options.start >= byte_len(text@),
        ensures
            core_output_spec(
                self.spec_actions(),
                options.expectation.kind,
                literal_view(options.expectation.literal),
                false,
                text@,
                options.start as nat,
                r,
            ),
    {
        let validator = Validator {
            kind: options.expectation.kind,
            literal: options.expectation.literal,
            muted_only: false,
        };
        self.run(&validator, text, options.start)
    }

    /// Trim `text` from byte offset `start`: digest what the muted actions
    /// accept, as long as one does. Returns the digested bytes.
    pub fn trim(&self, text: &str, start: usize) -> (r: usize)
        requires
            is_boundary(text@, start as int) || start >= byte_len(text@),
        ensures
            ({
                let k0 = start_index(text@, start as nat);
                let k1 = core_lex_spec(self.spec_actions(), None, None, true, text@, k0).1;
                r == byte_len(text@.take(k1 as int)) - byte_len(text@.take(k0 as int))
            }),
    {
        let validator = Validator { kind: None, literal: None, muted_only: true };
        let out = self.run(&validator, text, start);
        out.digested
    }
}

} // verus!
