//! Lexing, peeking and trimming with the stateless lexer.
use super::head_map::{HeadMap, RuntimeActions};
use super::literal_map::LiteralMap;
use super::options::{default_lex_options, StatelessLexOptions, StatelessOptions, StatelessTrimOptions};
use super::{
    all_ids, candidates, law_candidates_in_order, known_char, known_kind, known_literal, lemma_candidates_valid,
    lemma_select_valid, select, str_eq, valid_ids, ActionFilter, StatelessLexer,
};
use crate::kind::SubKindId;
use crate::lexer::action::{
    lemma_spec_data_unique, same_data, action_digest, digest_in_rest, lemma_action_digest_in_rest, Action, ActionOutput,
};
use crate::lexer::options::{LexOptions, TrimOptions};
use crate::lexer::output::{LexOutput, TrimOutput};
use crate::lexer::re_lex::ReLexContext;
use crate::lexer::token::Token;
use crate::text::{
    byte_len, char_index, chars_after, first_char, is_boundary, lemma_byte_len_split,
    lemma_char_index, seq_starts_with, str_after, str_len, str_starts_with,
};
use vstd::prelude::*;

verus! {

broadcast use vstd::string::group_string_axioms;

/// The position, from `j` on, of the first of the candidates `cands` whose
/// action accepts `rest`.
pub open spec fn first_accept(actions: Seq<Action>, cands: Seq<usize>, j: nat, rest: Seq<char>) -> Option<nat>
    decreases cands.len() - j,
{
    if j >= cands.len() {
        None
    } else if action_digest(actions[cands[j as int] as int], rest) is Some {
        Some(j)
    } else {
        first_accept(actions, cands, j + 1, rest)
    }
}

/// The view of an optional expected literal.
pub open spec fn literal_view(literal: Option<&str>) -> Option<Seq<char>> {
    match literal {
        Some(l) => Some(l@),
        None => None,
    }
}

/// What a lex of `text` from char index `k` yields: the token, if any, as
/// (the index of the accepted action, its position among the candidates,
/// the number of candidates, the char index where the token starts), and the
/// char index where the lex stops.
///
/// At each position the candidates are tried in order (on a re-lex, the
/// first `re_lex.skip` of them are skipped at byte offset `re_lex.start`);
/// the first that accepts digests; a muted one lets the lex go on, another
/// one emits the token. The lex stops without token at the end of the text
/// or when no candidate accepts.
pub open spec fn lex_spec(
    actions: Seq<Action>,
    kind: Option<SubKindId>,
    literal: Option<Seq<char>>,
    re_lex: ReLexContext,
    text: Seq<char>,
    k: nat,
) -> (Option<(int, int, int, nat)>, nat)
    decreases text.len() - k,
{
    if k >= text.len() {
        (None, k)
    } else {
        let rest = text.skip(k as int);
        let cands = candidates(actions, kind, literal, rest);
        let from: nat = if byte_len(text.take(k as int)) == re_lex.start {
            re_lex.skip as nat
        } else {
            0
        };
        match first_accept(actions, cands, from, rest) {
            None => (None, k),
            Some(j) => {
                let i = cands[j as int] as int;
                let n = char_index(rest, action_digest(actions[i], rest)->0 as int);
                if n <= 0 || k + n > text.len() {
                    (None, k)
                } else if actions[i].muted {
                    lex_spec(actions, kind, literal, re_lex, text, (k + n) as nat)
                } else {
                    (Some((i, j as int, cands.len() as int, k)), (k + n) as nat)
                }
            },
        }
    }
}

/// The char index of byte offset `start` in `text`: the length of the text
/// from the end of the text on.
pub open spec fn start_index(text: Seq<char>, start: nat) -> nat {
    if start >= byte_len(text) {
        text.len()
    } else {
        char_index(text, start as int) as nat
    }
}

/// Whether `r` is the output of a lex of `text` from byte offset `start`
/// with the actions `actions`, the expected kind and literal, fork enabled
/// or not, and the re-lex context.
pub open spec fn lex_output_spec(
    actions: Seq<Action>,
    kind: Option<SubKindId>,
    literal: Option<Seq<char>>,
    fork: bool,
    re_lex: ReLexContext,
    text: Seq<char>,
    start: nat,
    r: LexOutput,
) -> bool {
    let k0 = start_index(text, start);
    let (tok, k1) = lex_spec(actions, kind, literal, re_lex, text, k0);
    let s0 = byte_len(text.take(k0 as int));
    let s1 = byte_len(text.take(k1 as int));
    &&& r.digested == s1 - s0
    &&& match tok {
        None => r.token is None && r.fork is None,
        Some((i, j, count, ks)) => {
            let ts = byte_len(text.take(ks as int));
            &&& r.token matches Some(t) && {
                &&& t.kind == actions[i].kind
                &&& t.range.start == ts
                &&& t.range.end == s1
                &&& actions[i].matcher.spec_data(text.skip(ks as int), t.data)
            }
            &&& r.fork == if fork && j + 1 < count {
                Some(ReLexContext { start: ts as usize, skip: (j + 1) as usize })
            } else {
                None
            }
        },
    }
}

/// What a trim of `text` from char index `k` yields: the char index where
/// it stops. At each position the muted actions whose head matcher accepts
/// the first char are tried in order; the first that accepts digests.
pub open spec fn trim_spec(actions: Seq<Action>, text: Seq<char>, k: nat) -> nat
    decreases text.len() - k,
{
    if k >= text.len() {
        k
    } else {
        let rest = text.skip(k as int);
        let cands = trim_candidates(actions, rest);
        match first_accept(actions, cands, 0, rest) {
            None => k,
            Some(j) => {
                let i = cands[j as int] as int;
                let n = char_index(rest, action_digest(actions[i], rest)->0 as int);
                if n <= 0 || k + n > text.len() {
                    k
                } else {
                    trim_spec(actions, text, (k + n) as nat)
                }
            },
        }
    }
}

/// The actions a trim tries at `rest` (not empty): the muted ones whose head
/// matcher accepts its first char.
pub open spec fn trim_candidates(actions: Seq<Action>, rest: Seq<char>) -> Seq<usize> {
    select(
        actions,
        select(actions, all_ids(actions.len()), ActionFilter::Muted),
        ActionFilter::Head(rest[0], known_char(actions, rest[0])),
    )
}

/// Whether a lex with these expectations is defined: the expected kind and
/// literal, if any, belong to some action.
pub open spec fn expectation_known(
    actions: Seq<Action>,
    kind: Option<SubKindId>,
    literal: Option<Seq<char>>,
) -> bool {
    &&& (kind matches Some(k) ==> known_kind(actions, k))
    &&& (literal matches Some(l) ==> known_literal(actions, l))
}

/// A lex from char index `k` stops at or after `k`, inside the text, and a
/// token starts at or after `k` and before where the lex stops.
pub proof fn lemma_lex_spec_bounds(
    actions: Seq<Action>,
    kind: Option<SubKindId>,
    literal: Option<Seq<char>>,
    re_lex: ReLexContext,
    text: Seq<char>,
    k: nat,
)
    requires
        k <= text.len(),
    ensures
        ({
            let (tok, k1) = lex_spec(actions, kind, literal, re_lex, text, k);
            &&& k <= k1 <= text.len()
            &&& tok matches Some((i, j, count, ks)) ==> k <= ks < k1 && 0 <= i < actions.len()
                && 0 <= j < count
        }),
    decreases text.len() - k,
{
    if k < text.len() {
        let rest = text.skip(k as int);
        let cands = candidates(actions, kind, literal, rest);
        let from: nat = if byte_len(text.take(k as int)) == re_lex.start {
            re_lex.skip as nat
        } else {
            0
        };
        lemma_candidates_valid(actions, kind, literal, rest);
        lemma_first_accept_range(actions, cands, from, rest);
        match first_accept(actions, cands, from, rest) {
            None => {},
            Some(j) => {
                let i = cands[j as int] as int;
                let n = char_index(rest, action_digest(actions[i], rest)->0 as int);
                if n > 0 && k + n <= text.len() && actions[i].muted {
                    lemma_lex_spec_bounds(actions, kind, literal, re_lex, text, (k + n) as nat);
                }
            },
        }
    }
}

/// A trim from char index `k` stops at or after `k`, inside the text.
pub proof fn lemma_trim_spec_bounds(actions: Seq<Action>, text: Seq<char>, k: nat)
    requires
        k <= text.len(),
    ensures
        k <= trim_spec(actions, text, k) <= text.len(),
    decreases text.len() - k,
{
    if k < text.len() {
        let rest = text.skip(k as int);
        let cands = trim_candidates(actions, rest);
        match first_accept(actions, cands, 0, rest) {
            None => {},
            Some(j) => {
                let i = cands[j as int] as int;
                let n = char_index(rest, action_digest(actions[i], rest)->0 as int);
                if n > 0 && k + n <= text.len() {
                    lemma_trim_spec_bounds(actions, text, (k + n) as nat);
                }
            },
        }
    }
}

/// A lex is a function of the actions, the text, the start and the options:
/// two outputs that both meet [`lex_output_spec`] agree on the digested
/// bytes, the fork context, and the token's kind, range and data (by its
/// view); so what a peek yields is what a lex from the same position yields.
pub proof fn law_lex_output_unique(
    actions: Seq<Action>,
    kind: Option<SubKindId>,
    literal: Option<Seq<char>>,
    fork: bool,
    re_lex: ReLexContext,
    text: Seq<char>,
    start: nat,
    r1: LexOutput,
    r2: LexOutput,
)
    requires
        lex_output_spec(actions, kind, literal, fork, re_lex, text, start, r1),
        lex_output_spec(actions, kind, literal, fork, re_lex, text, start, r2),
    ensures
        r1.digested == r2.digested,
        r1.fork == r2.fork,
        r1.token is Some <==> r2.token is Some,
        r1.token matches Some(t1) ==> (r2.token matches Some(t2) && t1.kind == t2.kind && t1.range
            == t2.range && same_data(t1.data, t2.data)),
{
    let k0 = start_index(text, start);
    let (tok, k1) = lex_spec(actions, kind, literal, re_lex, text, k0);
    match tok {
        Some((i, j, count, ks)) => {
            let t1 = r1.token->0;
            let t2 = r2.token->0;
            lemma_spec_data_unique(actions[i].matcher, text.skip(ks as int), t1.data, t2.data);
        },
        None => {},
    }
}

/// Up to the start of the token that a lex (not itself a re-lex) emits, a
/// re-lex with the fork context of that token takes the same steps.
proof fn lemma_re_lex_reaches_token(
    actions: Seq<Action>,
    kind: Option<SubKindId>,
    literal: Option<Seq<char>>,
    re_lex: ReLexContext,
    text: Seq<char>,
    k: nat,
    i: int,
    j: int,
    count: int,
    ks: nat,
    k1: nat,
)
    requires
        re_lex.skip == 0,
        k <= ks <= text.len(),
        byte_len(text) <= usize::MAX,
        0 <= j < usize::MAX,
        lex_spec(actions, kind, literal, re_lex, text, k) == (Some((i, j, count, ks)), k1),
    ensures
        ({
            let ctx = ReLexContext { start: byte_len(text.take(ks as int)) as usize, skip: (j + 1) as usize };
            lex_spec(actions, kind, literal, ctx, text, k) == lex_spec(actions, kind, literal, ctx, text, ks)
        }),
    decreases ks - k,
{
    let ctx = ReLexContext { start: byte_len(text.take(ks as int)) as usize, skip: (j + 1) as usize };
    lemma_lex_spec_bounds(actions, kind, literal, re_lex, text, k);
    if k < ks {
        crate::text::lemma_byte_len_take_mono(text, k as int, ks as int);
        crate::text::lemma_byte_len_take_mono(text, ks as int, text.len() as int);
        assert(text.take(text.len() as int) == text);
        assert(ctx.start == byte_len(text.take(ks as int)));
        let rest = text.skip(k as int);
        let cands = candidates(actions, kind, literal, rest);
        lemma_candidates_valid(actions, kind, literal, rest);
        lemma_first_accept_range(actions, cands, 0, rest);
        match first_accept(actions, cands, 0, rest) {
            None => {},
            Some(jj) => {
                let ii = cands[jj as int] as int;
                let n = char_index(rest, action_digest(actions[ii], rest)->0 as int);
                if n > 0 && k + n <= text.len() && actions[ii].muted {
                    lemma_lex_spec_bounds(actions, kind, literal, re_lex, text, (k + n) as nat);
                    lemma_re_lex_reaches_token(actions, kind, literal, re_lex, text, (k + n) as nat, i, j, count, ks, k1);
                }
            },
        }
    }
}

/// Fork and re-lex: when a lex (not itself a re-lex) emits a token
/// accepted by the `j`-th candidate at the token's start, a re-lex from the
/// same position with the fork context of that token goes the same way up
/// to the token's start, and there tries the candidates after the `j`-th,
/// in order: it stops there if none accepts, else the accepted action comes
/// after the one accepted before, and if it is not muted it emits its token
/// there.
pub proof fn law_re_lex_tries_later_actions(
    actions: Seq<Action>,
    kind: Option<SubKindId>,
    literal: Option<Seq<char>>,
    re_lex: ReLexContext,
    text: Seq<char>,
    k: nat,
)
    requires
        re_lex.skip == 0,
        actions.len() <= usize::MAX,
        byte_len(text) <= usize::MAX,
        lex_spec(actions, kind, literal, re_lex, text, k).0 is Some,
    ensures
        ({
            let (tok, k1) = lex_spec(actions, kind, literal, re_lex, text, k);
            let (i, j, count, ks) = tok->0;
            let ctx = ReLexContext { start: byte_len(text.take(ks as int)) as usize, skip: (j + 1) as usize };
            let rest = text.skip(ks as int);
            let cands = candidates(actions, kind, literal, rest);
            let (tok2, k2) = lex_spec(actions, kind, literal, ctx, text, k);
            &&& count == cands.len()
            &&& cands[j] == i
            &&& match first_accept(actions, cands, (j + 1) as nat, rest) {
                None => tok2 is None && k2 == ks,
                Some(j2) => {
                    &&& j < j2 < cands.len()
                    &&& i < cands[j2 as int]
                    &&& !actions[cands[j2 as int] as int].muted ==> (tok2 matches Some((i2, jj2, count2, ks2))
                        && i2 == cands[j2 as int] && jj2 == j2 && count2 == count && ks2 == ks)
                },
            }
        }),
{
    let (tok, k1) = lex_spec(actions, kind, literal, re_lex, text, k);
    let (i, j, count, ks) = tok->0;
    lemma_lex_spec_bounds(actions, kind, literal, re_lex, text, k);
    lemma_token_step(actions, kind, literal, re_lex, text, k);
    let rest = text.skip(ks as int);
    let cands = candidates(actions, kind, literal, rest);
    lemma_candidates_valid(actions, kind, literal, rest);
    crate::lexer::stateless::lemma_candidates_len(actions, kind, literal, rest);
    assert(j < cands.len());
    lemma_re_lex_reaches_token(actions, kind, literal, re_lex, text, k, i, j, count, ks, k1);
    law_candidates_in_order(actions, kind, literal, rest);
    let ctx = ReLexContext { start: byte_len(text.take(ks as int)) as usize, skip: (j + 1) as usize };
    crate::text::lemma_byte_len_take_mono(text, ks as int, text.len() as int);
    assert(text.take(text.len() as int) == text);
    assert(ctx.start == byte_len(text.take(ks as int)));
    assert(ctx.skip == j + 1);
    lemma_first_accept_range(actions, cands, (j + 1) as nat, rest);
    assert(ks < text.len());
    let from: nat = if byte_len(text.take(ks as int)) == ctx.start {
        ctx.skip as nat
    } else {
        0
    };
    assert(from == j + 1);
    assert(lex_spec(actions, kind, literal, ctx, text, k) == lex_spec(actions, kind, literal, ctx, text, ks));
    match first_accept(actions, cands, (j + 1) as nat, rest) {
        None => {
            assert(lex_spec(actions, kind, literal, ctx, text, ks) == (None::<(int, int, int, nat)>, ks));
        },
        Some(j2) => {
            assert(cands[j] < cands[j2 as int]);
            let i2 = cands[j2 as int] as int;
            lemma_candidates_valid(actions, kind, literal, rest);
            lemma_accept_chars(actions, i2, rest);
            let n = char_index(rest, action_digest(actions[i2], rest)->0 as int);
            assert(0 < n <= rest.len());
            if !actions[i2].muted {
                assert(lex_spec(actions, kind, literal, ctx, text, ks) == (
                    Some((i2, j2 as int, cands.len() as int, ks)),
                    (ks + n) as nat,
                ));
            }
        },
    }
}

/// Where a lex (not itself a re-lex) emits its token: the position of the
/// accepting candidate among the candidates there, which do not skip it.
proof fn lemma_token_step(
    actions: Seq<Action>,
    kind: Option<SubKindId>,
    literal: Option<Seq<char>>,
    re_lex: ReLexContext,
    text: Seq<char>,
    k: nat,
)
    requires
        re_lex.skip == 0,
        lex_spec(actions, kind, literal, re_lex, text, k).0 is Some,
    ensures
        ({
            let (i, j, count, ks) = lex_spec(actions, kind, literal, re_lex, text, k).0->0;
            let rest = text.skip(ks as int);
            let cands = candidates(actions, kind, literal, rest);
            &&& ks < text.len()
            &&& count == cands.len()
            &&& 0 <= j < cands.len()
            &&& cands[j] == i
            &&& first_accept(actions, cands, 0, rest) == Some(j as nat)
        }),
    decreases text.len() - k,
{
    let rest = text.skip(k as int);
    let cands = candidates(actions, kind, literal, rest);
    lemma_first_accept_range(actions, cands, 0, rest);
    match first_accept(actions, cands, 0, rest) {
        None => {},
        Some(jj) => {
            let ii = cands[jj as int] as int;
            let n = char_index(rest, action_digest(actions[ii], rest)->0 as int);
            if n > 0 && k + n <= text.len() && actions[ii].muted {
                lemma_token_step(actions, kind, literal, re_lex, text, (k + n) as nat);
            }
        },
    }
}

/// Muted actions never emit tokens: the action of an emitted token is not
/// muted, is a candidate where the token starts, and accepts the rest there.
pub proof fn law_emitted_token_is_unmuted(
    actions: Seq<Action>,
    kind: Option<SubKindId>,
    literal: Option<Seq<char>>,
    re_lex: ReLexContext,
    text: Seq<char>,
    k: nat,
)
    ensures
        lex_spec(actions, kind, literal, re_lex, text, k).0 matches Some((i, j, count, ks)) ==> {
            let rest = text.skip(ks as int);
            let cands = candidates(actions, kind, literal, rest);
            &&& !actions[i].muted
            &&& 0 <= j < cands.len()
            &&& cands[j] == i
            &&& count == cands.len()
            &&& action_digest(actions[i], rest) is Some
        },
    decreases text.len() - k,
{
    if k < text.len() {
        let rest = text.skip(k as int);
        let cands = candidates(actions, kind, literal, rest);
        let from: nat = if byte_len(text.take(k as int)) == re_lex.start {
            re_lex.skip as nat
        } else {
            0
        };
        lemma_first_accept_range(actions, cands, from, rest);
        match first_accept(actions, cands, from, rest) {
            None => {},
            Some(jj) => {
                let ii = cands[jj as int] as int;
                let n = char_index(rest, action_digest(actions[ii], rest)->0 as int);
                if n > 0 && k + n <= text.len() && actions[ii].muted {
                    law_emitted_token_is_unmuted(actions, kind, literal, re_lex, text, (k + n) as nat);
                }
            },
        }
    }
}

/// Trimming is idempotent: a trim that starts where a trim stopped stops
/// right there.
pub proof fn law_trim_idempotent(actions: Seq<Action>, text: Seq<char>, k: nat)
    requires
        k <= text.len(),
    ensures
        trim_spec(actions, text, trim_spec(actions, text, k)) == trim_spec(actions, text, k),
    decreases text.len() - k,
{
    if k < text.len() {
        let rest = text.skip(k as int);
        let cands = trim_candidates(actions, rest);
        match first_accept(actions, cands, 0, rest) {
            None => {},
            Some(j) => {
                let i = cands[j as int] as int;
                let n = char_index(rest, action_digest(actions[i], rest)->0 as int);
                if n > 0 && k + n <= text.len() {
                    law_trim_idempotent(actions, text, (k + n) as nat);
                }
            },
        }
    }
}

/// The first accepting candidate is a candidate at or after `j`.
pub proof fn lemma_first_accept_range(actions: Seq<Action>, cands: Seq<usize>, j: nat, rest: Seq<char>)
    ensures
        first_accept(actions, cands, j, rest) matches Some(m) ==> j <= m < cands.len() && action_digest(
            actions[cands[m as int] as int],
            rest,
        ) is Some,
    decreases cands.len() - j,
{
    if j < cands.len() && action_digest(actions[cands[j as int] as int], rest) is None {
        lemma_first_accept_range(actions, cands, j + 1, rest);
    }
}

/// The accepted digest of a candidate covers a positive number of whole
/// chars of the rest.
pub proof fn lemma_accept_chars(actions: Seq<Action>, i: int, rest: Seq<char>)
    requires
        0 <= i < actions.len(),
        action_digest(actions[i], rest) is Some,
    ensures
        ({
            let d = action_digest(actions[i], rest)->0;
            let n = char_index(rest, d as int);
            &&& 0 < n <= rest.len()
            &&& byte_len(rest.take(n)) == d
            &&& is_boundary(rest, d as int)
        }),
{
    lemma_action_digest_in_rest(actions[i], rest);
    let d = action_digest(actions[i], rest)->0;
    let n = char_index(rest, d as int);
    if n == 0 {
        assert(rest.take(0) == Seq::<char>::empty());
    }
}

/// Digesting the first `n` chars of the rest at char index `k` moves to char
/// index `k + n`.
pub proof fn lemma_advance(text: Seq<char>, k: int, n: int)
    requires
        0 <= k,
        0 <= n,
        k + n <= text.len(),
    ensures
        byte_len(text.take(k + n)) == byte_len(text.take(k)) + byte_len(text.skip(k).take(n)),
{
    assert(text.take(k + n) == text.take(k) + text.skip(k).take(n));
    crate::text::lemma_byte_len_add(text.take(k), text.skip(k).take(n));
}

impl StatelessLexer {
    /// The actions to try at `rest` (not empty, starting with `next`) for
    /// the expected kind and literal.
    fn get_candidates(
        &self,
        kind: Option<SubKindId>,
        literal: Option<&str>,
        rest: &str,
        next: char,
    ) -> (r: &RuntimeActions)
        requires
            rest@.len() > 0,
            next == rest@[0],
            expectation_known(self.spec_actions(), kind, literal_view(literal)),
        ensures
            r.holds(self.spec_actions(), candidates(self.spec_actions(), kind, literal_view(literal), rest@)),
    {
        proof {
            use_type_invariant(self);
        }
        let ghost actions = self.actions@;
        let ghost all = all_ids(actions.len());
        assert(valid_ids(all, actions.len()));
        let (head_map, literal_map): (&HeadMap, &LiteralMap) = match kind {
            None => (&self.head_map, &self.literal_map),
            Some(k) => {
                let mut j: usize = 0;
                let mut found: Option<usize> = None;
                while j < self.kind_maps.len()
                    invariant
                        j <= self.kind_maps@.len(),
                        found matches Some(m) ==> m < self.kind_maps@.len() && self.kind_maps@[m as int].kind == k,
                        found is None ==> forall|m: int| 0 <= m < j ==> #[trigger] self.kind_maps@[m].kind != k,
                    decreases self.kind_maps@.len() - j,
                {
                    if found.is_none() && self.kind_maps[j].kind.0 == k.0 {
                        found = Some(j);
                    }
                    j = j + 1;
                }
                match found {
                    Some(m) => (&self.kind_maps[m].head_map, &self.kind_maps[m].literal_map),
                    None => {
                        proof {
                            let m = choose|m: int| 0 <= m < self.kind_maps@.len() && #[trigger] self.kind_maps@[m].kind == k;
                            assert(self.kind_maps@[m].kind != k);
                        }
                        (&self.head_map, &self.literal_map)
                    },
                }
            },
        };
        let ghost base = match kind {
            Some(k) => select(actions, all, ActionFilter::Kind(k)),
            None => all,
        };
        proof {
            match kind {
                Some(k) => lemma_select_valid(actions, all, ActionFilter::Kind(k), actions.len()),
                None => {},
            }
        }
        assert(head_map.wf(actions, base));
        assert(literal_map.wf(actions, base));
        match literal {
            None => head_map.get(next),
            Some(l) => {
                let lhm = literal_map.get(l);
                proof {
                    lemma_select_valid(actions, base, ActionFilter::Literal(l@), actions.len());
                    lemma_select_valid(actions, base, ActionFilter::Muted, actions.len());
                }
                match lhm {
                    Some(hm) => {
                        if str_starts_with(rest, l) {
                            hm.get(next)
                        } else {
                            literal_map.muted_map().get(next)
                        }
                    },
                    None => {
                        assert(false);
                        head_map.get(next)
                    },
                }
            },
        }
    }

    /// The first candidate, from position `from` on, whose action accepts
    /// `rest`: its position and the output.
    fn first_accept_exec(&self, cands: &RuntimeActions, from: usize, rest: &str) -> (r: Option<(usize, ActionOutput)>)
        requires
            cands.wf(),
            valid_ids(cands.spec_ids(), self.spec_actions().len()),
        ensures
            r is None <==> first_accept(self.spec_actions(), cands.spec_ids(), from as nat, rest@) is None,
            r matches Some((j, o)) ==> {
                let i = cands.spec_ids()[j as int] as int;
                &&& first_accept(self.spec_actions(), cands.spec_ids(), from as nat, rest@) == Some(j as nat)
                &&& j < cands.spec_ids().len()
                &&& action_digest(self.spec_actions()[i], rest@) == Some(o.digested as nat)
                &&& self.spec_actions()[i].matcher.spec_data(rest@, o.data)
            },
    {
        let ghost actions = self.actions@;
        let ids = cands.execs();
        let mut j: usize = from;
        while j < ids.len()
            invariant
                from <= j,
                ids@ == cands.spec_ids(),
                valid_ids(ids@, actions.len()),
                actions == self.actions@,
                first_accept(actions, ids@, from as nat, rest@) == first_accept(actions, ids@, j as nat, rest@),
            decreases ids@.len() - j,
        {
            let i = ids[j];
            match self.actions[i].exec(rest) {
                Some(o) => {
                    return Some((j, o));
                },
                None => {},
            }
            j = j + 1;
        }
        None
    }

    /// Lex `text` from `options.start` with the options: see [`lex_output_spec`].
    /// The expected kind and literal must belong to some action.
    pub fn lex_with_options<StateRef, HeapRef>(
        &self,
        text: &str,
        options: StatelessOptions<StateRef, HeapRef, LexOptions>,
    ) -> (r: LexOutput)
        requires
            is_boundary(text@, options.start as int) || options.start >= byte_len(text@),
            expectation_known(
                self.spec_actions(),
                options.base.expectation.kind,
                literal_view(options.base.expectation.literal),
            ),
        ensures
            lex_output_spec(
                self.spec_actions(),
                options.base.expectation.kind,
                literal_view(options.base.expectation.literal),
                options.base.fork,
                options.base.re_lex,
                text@,
                options.start as nat,
                r,
            ),
    {
        proof {
            use_type_invariant(self);
        }
        let ghost actions = self.actions@;
        let ghost t = text@;
        let kind = options.base.expectation.kind;
        let literal = options.base.expectation.literal;
        let ghost lit = literal_view(literal);
        let re_lex = options.base.re_lex;
        let start = options.start;
        let total = str_len(text);
        let ghost k0 = start_index(t, start as nat);
        if start >= total {
            return LexOutput { token: None, digested: 0, fork: None };
        }
        proof {
            lemma_char_index(t, char_index(t, start as int));
            lemma_byte_len_split(t, k0 as int);
        }
        let mut digested: usize = 0;
        let ghost mut k: nat = k0;
        loop
            invariant
                actions == self.actions@,
                t == text@,
                self.wf(),
                total == byte_len(t),
                expectation_known(actions, kind, lit),
                lit == literal_view(literal),
                k0 <= k <= t.len(),
                byte_len(t.take(k0 as int)) == start,
                byte_len(t.take(k as int)) == start + digested,
                lex_spec(actions, kind, lit, re_lex, t, k0) == lex_spec(actions, kind, lit, re_lex, t, k),
                k0 == start_index(t, start as nat),
                kind == options.base.expectation.kind,
                literal == options.base.expectation.literal,
                re_lex == options.base.re_lex,
                start == options.start,
            decreases t.len() - k,
        {
            proof {
                lemma_byte_len_split(t, k as int);
                lemma_char_index(t, k as int);
            }
            let pos = start + digested;
            if pos >= total {
                proof {
                    if k < t.len() {
                        crate::text::lemma_byte_len_take_mono(t, k as int, t.len() as int);
                        assert(t.take(t.len() as int) == t);
                    }
                    assert(lex_spec(actions, kind, lit, re_lex, t, k) == (None::<(int, int, int, nat)>, k));
                }
                return LexOutput { token: None, digested, fork: None };
            }
            proof {
                if k >= t.len() {
                    assert(t.take(k as int) == t);
                }
            }
            let rest = str_after(text, pos);
            assert(rest@ == t.skip(k as int));
            let next = match first_char(rest) {
                Some(c) => c,
                None => {
                    assert(false);
                    return LexOutput { token: None, digested, fork: None };
                },
            };
            let cands = self.get_candidates(kind, literal, rest, next);
            let ghost cs = candidates(actions, kind, lit, rest@);
            proof {
                lemma_candidates_valid(actions, kind, lit, rest@);
            }
            let from = if pos == re_lex.start {
                re_lex.skip
            } else {
                0
            };
            match self.first_accept_exec(cands, from, rest) {
                None => {
                    assert(lex_spec(actions, kind, lit, re_lex, t, k) == (None::<(int, int, int, nat)>, k));
                    return LexOutput { token: None, digested, fork: None };
                },
                Some((j, o)) => {
                    let ghost i = cands.spec_ids()[j as int] as int;
                    let muted = cands.muted()[j];
                    let action_index = cands.execs()[j];
                    let ghost n = char_index(rest@, o.digested as int);
                    proof {
                        assert(cs[j as int] == action_index);
                        assert(muted == actions[i].muted);
                        lemma_accept_chars(actions, i, rest@);
                        lemma_advance(t, k as int, n);
                        lemma_byte_len_split(t, (k + n) as int);
                        lemma_byte_len_split(rest@, n);
                    }
                    digested = digested + o.digested;
                    if muted {
                        proof {
                            assert(lex_spec(actions, kind, lit, re_lex, t, k) == lex_spec(
                                actions,
                                kind,
                                lit,
                                re_lex,
                                t,
                                (k + n) as nat,
                            ));
                            k = (k + n) as nat;
                        }
                        continue;
                    }
                    let end = pos + o.digested;
                    let len = cands.len();
                    let fork = if options.base.fork && j + 1 < len {
                        Some(ReLexContext { start: pos, skip: j + 1 })
                    } else {
                        None
                    };
                    let token = Token { kind: self.actions[action_index].kind, data: o.data, range: pos..end };
                    proof {
                        assert(lex_spec(actions, kind, lit, re_lex, t, k) == (
                            Some((i, j as int, cs.len() as int, k)),
                            (k + n) as nat,
                        ));
                    }
                    return LexOutput { token: Some(token), digested, fork };
                },
            }
        }
    }

    /// Lex `text` with options built from the default ones (start `0`, no
    /// expectation, fork disabled, no re-lex).
    pub fn lex_with<
        'literal,
        StateRef,
        HeapRef,
        F: FnOnce(StatelessOptions<(), (), LexOptions<'literal>>) -> StatelessOptions<
            StateRef,
            HeapRef,
            LexOptions<'literal>,
        >,
    >(&self, text: &str, options_builder: F) -> (r: LexOutput)
        requires
            options_builder.requires((default_lex_options(),)),
            forall|o: StatelessOptions<StateRef, HeapRef, LexOptions<'literal>>|
                #[trigger] options_builder.ensures((default_lex_options(),), o) ==> {
                    &&& is_boundary(text@, o.start as int) || o.start >= byte_len(text@)
                    &&& expectation_known(
                        self.spec_actions(),
                        o.base.expectation.kind,
                        literal_view(o.base.expectation.literal),
                    )
                },
        ensures
            exists|o: StatelessOptions<StateRef, HeapRef, LexOptions<'literal>>|
                #[trigger] options_builder.ensures((default_lex_options(),), o) && lex_output_spec(
                    self.spec_actions(),
                    o.base.expectation.kind,
                    literal_view(o.base.expectation.literal),
                    o.base.fork,
                    o.base.re_lex,
                    text@,
                    o.start as nat,
                    r,
                ),
    {
        let o = options_builder(StatelessLexOptions::new());
        self.lex_with_options(text, o)
    }

    /// Lex `text` from its start with the default options.
    pub fn lex(&self, text: &str) -> (r: LexOutput)
        ensures
            lex_output_spec(
                self.spec_actions(),
                None,
                None,
                false,
                ReLexContext { start: 0, skip: 0 },
                text@,
                0,
                r,
            ),
    {
        proof {
            assert(text@.take(0) == Seq::<char>::empty());
            assert(is_boundary(text@, 0));
        }
        self.lex_with_options(text, StatelessLexOptions::new())
    }

    /// Peek: lex with a clone of the state, which is handed back with what
    /// [`Self::lex_with_options`] yields; the state the options point at is
    /// left as it is.
    pub fn peek_with_options<'state, State: Clone, HeapRef>(
        &self,
        text: &str,
        options: StatelessOptions<&'state State, HeapRef, LexOptions>,
    ) -> (r: (LexOutput, State))
        requires
            is_boundary(text@, options.start as int) || options.start >= byte_len(text@),
            expectation_known(
                self.spec_actions(),
                options.base.expectation.kind,
                literal_view(options.base.expectation.literal),
            ),
        ensures
            lex_output_spec(
                self.spec_actions(),
                options.base.expectation.kind,
                literal_view(options.base.expectation.literal),
                options.base.fork,
                options.base.re_lex,
                text@,
                options.start as nat,
                r.0,
            ),
            cloned(*options.state, r.1),
    {
        let state = options.state.clone();
        let output = self.lex_with_options(text, options);
        (output, state)
    }

    /// Peek with options built from the default ones.
    pub fn peek_with<
        'literal,
        'state,
        State: Clone + 'state,
        HeapRef,
        F: FnOnce(StatelessOptions<(), (), LexOptions<'literal>>) -> StatelessOptions<
            &'state State,
            HeapRef,
            LexOptions<'literal>,
        >,
    >(&self, text: &str, options_builder: F) -> (r: (LexOutput, State))
        requires
            options_builder.requires((default_lex_options(),)),
            forall|o: StatelessOptions<&'state State, HeapRef, LexOptions<'literal>>|
                #[trigger] options_builder.ensures((default_lex_options(),), o) ==> {
                    &&& is_boundary(text@, o.start as int) || o.start >= byte_len(text@)
                    &&& expectation_known(
                        self.spec_actions(),
                        o.base.expectation.kind,
                        literal_view(o.base.expectation.literal),
                    )
                },
        ensures
            exists|o: StatelessOptions<&'state State, HeapRef, LexOptions<'literal>>|
                #[trigger] options_builder.ensures((default_lex_options(),), o) && lex_output_spec(
                    self.spec_actions(),
                    o.base.expectation.kind,
                    literal_view(o.base.expectation.literal),
                    o.base.fork,
                    o.base.re_lex,
                    text@,
                    o.start as nat,
                    r.0,
                ) && cloned(*o.state, r.1),
    {
        let o = options_builder(StatelessLexOptions::new());
        self.peek_with_options(text, o)
    }

    /// Trim `text` from `options.start`: digest what the muted actions accept,
    /// as long as one does (see [`trim_spec`]).
    pub fn trim_with_options<StateRef, HeapRef>(
        &self,
        text: &str,
        options: StatelessOptions<StateRef, HeapRef, TrimOptions>,
    ) -> (r: TrimOutput)
        requires
            is_boundary(text@, options.start as int) || options.start >= byte_len(text@),
        ensures
            ({
                let k0 = start_index(text@, options.start as nat);
                r.digested == byte_len(text@.take(trim_spec(self.spec_actions(), text@, k0) as int))
                    - byte_len(text@.take(k0 as int))
            }),
    {
        proof {
            use_type_invariant(self);
        }
        let ghost actions = self.actions@;
        let ghost t = text@;
        let start = options.start;
        let total = str_len(text);
        let ghost k0 = start_index(t, start as nat);
        if start >= total {
            return TrimOutput { digested: 0 };
        }
        proof {
            lemma_char_index(t, char_index(t, start as int));
            lemma_byte_len_split(t, k0 as int);
        }
        let mut digested: usize = 0;
        let ghost mut k: nat = k0;
        loop
            invariant
                actions == self.actions@,
                t == text@,
                self.wf(),
                total == byte_len(t),
                k0 <= k <= t.len(),
                byte_len(t.take(k0 as int)) == start,
                byte_len(t.take(k as int)) == start + digested,
                trim_spec(actions, t, k0) == trim_spec(actions, t, k),
                k0 == start_index(t, start as nat),
                start == options.start,
            decreases t.len() - k,
        {
            proof {
                lemma_byte_len_split(t, k as int);
                lemma_char_index(t, k as int);
            }
            let pos = start + digested;
            if pos >= total {
                proof {
                    if k < t.len() {
                        crate::text::lemma_byte_len_take_mono(t, k as int, t.len() as int);
                        assert(t.take(t.len() as int) == t);
                    }
                }
                return TrimOutput { digested };
            }
            proof {
                if k >= t.len() {
                    assert(t.take(k as int) == t);
                }
            }
            let rest = str_after(text, pos);
            assert(rest@ == t.skip(k as int));
            let next = match first_char(rest) {
                Some(c) => c,
                None => {
                    assert(false);
                    return TrimOutput { digested };
                },
            };
            let ghost all = all_ids(actions.len());
            proof {
                assert(valid_ids(all, actions.len()));
                lemma_select_valid(actions, all, ActionFilter::Muted, actions.len());
                lemma_select_valid(
                    actions,
                    select(actions, all, ActionFilter::Muted),
                    ActionFilter::Head(next, known_char(actions, next)),
                    actions.len(),
                );
            }
            let cands = self.literal_map.muted_map().get(next);
            match self.first_accept_exec(cands, 0, rest) {
                None => {
                    return TrimOutput { digested };
                },
                Some((j, o)) => {
                    let ghost i = cands.spec_ids()[j as int] as int;
                    let ghost n = char_index(rest@, o.digested as int);
                    proof {
                        lemma_accept_chars(actions, i, rest@);
                        lemma_advance(t, k as int, n);
                        lemma_byte_len_split(t, (k + n) as int);
                        lemma_byte_len_split(rest@, n);
                    }
                    digested = digested + o.digested;
                    proof {
                        k = (k + n) as nat;
                    }
                },
            }
        }
    }

    /// Trim with options built from the default ones (start `0`).
    pub fn trim_with<
        StateRef,
        HeapRef,
        F: FnOnce(StatelessOptions<(), (), TrimOptions>) -> StatelessOptions<StateRef, HeapRef, TrimOptions>,
    >(&self, text: &str, options_builder: F) -> (r: TrimOutput)
        requires
            options_builder.requires((StatelessOptions { start: 0, state: (), heap: (), base: TrimOptions },)),
            forall|o: StatelessOptions<StateRef, HeapRef, TrimOptions>|
                #[trigger] options_builder.ensures(
                    (StatelessOptions { start: 0, state: (), heap: (), base: TrimOptions },),
                    o,
                ) ==> is_boundary(text@, o.start as int) || o.start >= byte_len(text@),
        ensures
            exists|o: StatelessOptions<StateRef, HeapRef, TrimOptions>|
                #[trigger] options_builder.ensures(
                    (StatelessOptions { start: 0, state: (), heap: (), base: TrimOptions },),
                    o,
                ) && {
                    let k0 = start_index(text@, o.start as nat);
                    r.digested == byte_len(text@.take(trim_spec(self.spec_actions(), text@, k0) as int))
                        - byte_len(text@.take(k0 as int))
                },
    {
        let o = options_builder(StatelessTrimOptions::new());
        self.trim_with_options(text, o)
    }

    /// Trim `text` from its start.
    pub fn trim(&self, text: &str) -> (r: TrimOutput)
        ensures
            r.digested == byte_len(text@.take(trim_spec(self.spec_actions(), text@, 0) as int)),
    {
        proof {
            assert(text@.take(0) == Seq::<char>::empty());
            assert(is_boundary(text@, 0));
            if byte_len(text@) > 0 {
                crate::text::lemma_char_index(text@, 0);
            } else {
                crate::text::lemma_byte_len_pos(text@);
            }
        }
        self.trim_with_options(text, StatelessTrimOptions::new())
    }
}

} // verus!
