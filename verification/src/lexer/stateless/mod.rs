//! The stateless lexer: an immutable list of actions, with maps that let a
//! lex skip the actions that cannot emit what is expected or cannot accept
//! the first char of the rest, while keeping the order of the actions.
pub mod head_map;
pub mod lex;
pub mod literal_map;
pub mod options;

use crate::kind::SubKindId;
use crate::lexer::action::{head_accepts, Action, HeadMatcher};
use crate::text::{seq_starts_with, str_len, str_starts_with};
use head_map::{head_accepts_exec, HeadMap};
use literal_map::LiteralMap;
use vstd::prelude::*;

verus! {

/// The chars that head matcher `head` lists.
pub open spec fn head_names(head: Option<HeadMatcher>) -> Seq<char> {
    match head {
        Some(h) => h.named(),
        None => Seq::empty(),
    }
}

/// Whether some head matcher of `actions` lists `c`.
pub open spec fn known_char(actions: Seq<Action>, c: char) -> bool {
    exists|i: int| 0 <= i < actions.len() && #[trigger] head_names(actions[i].head).contains(c)
}

/// Whether some action of `actions` emits tokens of kind `kind`.
pub open spec fn known_kind(actions: Seq<Action>, kind: SubKindId) -> bool {
    exists|i: int| 0 <= i < actions.len() && #[trigger] actions[i].kind == kind
}

/// Whether some action of `actions` has the literal `l`.
pub open spec fn known_literal(actions: Seq<Action>, l: Seq<char>) -> bool {
    exists|i: int| 0 <= i < actions.len() && (#[trigger] actions[i].literal matches Some(s) && s@ == l)
}

/// Whether every index of `ids` is an index of a list of `n` actions.
pub open spec fn valid_ids(ids: Seq<usize>, n: nat) -> bool {
    forall|j: int| 0 <= j < ids.len() ==> #[trigger] ids[j] < n
}

/// The indexes `0..n`.
pub open spec fn all_ids(n: nat) -> Seq<usize> {
    Seq::new(n, |i: int| i as usize)
}

/// A test that keeps some actions.
pub enum ActionFilter {
    /// Actions whose head matcher accepts the char (known or not).
    Head(char, bool),
    /// Actions tried on chars that no head matcher lists.
    Fallback,
    /// Muted actions, and actions of the kind.
    Kind(SubKindId),
    /// Muted actions, and actions with the literal.
    Literal(Seq<char>),
    /// Muted actions.
    Muted,
}

/// Whether the filter `f` keeps action `a`.
pub open spec fn keeps(f: ActionFilter, a: Action) -> bool {
    match f {
        ActionFilter::Head(c, known) => head_accepts(a.head, c, known),
        ActionFilter::Fallback => !(a.head matches Some(HeadMatcher::OneOf(_))),
        ActionFilter::Kind(k) => a.muted || a.kind == k,
        ActionFilter::Literal(l) => a.muted || (a.literal matches Some(s) && s@ == l),
        ActionFilter::Muted => a.muted,
    }
}

/// The indexes of `ids` whose actions `f` keeps, in order.
pub open spec fn select(actions: Seq<Action>, ids: Seq<usize>, f: ActionFilter) -> Seq<usize>
    decreases ids.len(),
{
    if ids.len() == 0 {
        Seq::empty()
    } else {
        let p = select(actions, ids.drop_last(), f);
        if keeps(f, actions[ids.last() as int]) {
            p.push(ids.last())
        } else {
            p
        }
    }
}

/// A selection holds indexes of the list it selects from, in order.
pub proof fn lemma_select_valid(actions: Seq<Action>, ids: Seq<usize>, f: ActionFilter, n: nat)
    requires
        valid_ids(ids, n),
    ensures
        valid_ids(select(actions, ids, f), n),
        select(actions, ids, f).len() <= ids.len(),
    decreases ids.len(),
{
    if ids.len() > 0 {
        lemma_select_valid(actions, ids.drop_last(), f, n);
        assert(ids.last() == ids[ids.len() - 1]);
    }
}

/// On a char that no head matcher lists, the head test keeps the fallback actions.
pub proof fn lemma_select_head_unknown(actions: Seq<Action>, ids: Seq<usize>, c: char)
    requires
        valid_ids(ids, actions.len()),
        !known_char(actions, c),
    ensures
        select(actions, ids, ActionFilter::Head(c, false)) == select(actions, ids, ActionFilter::Fallback),
    decreases ids.len(),
{
    if ids.len() > 0 {
        lemma_select_head_unknown(actions, ids.drop_last(), c);
        let i = ids.last() as int;
        assert(ids.last() == ids[ids.len() - 1]);
        if head_names(actions[i].head).contains(c) {
            assert(known_char(actions, c));
        }
    }
}

/// The known chars after one more action.
pub proof fn lemma_known_char_push(actions: Seq<Action>, a: Action, c: char)
    ensures
        known_char(actions.push(a), c) <==> (known_char(actions, c) || head_names(a.head).contains(c)),
{
    let t = actions.push(a);
    if known_char(t, c) {
        let i = choose|i: int| 0 <= i < t.len() && #[trigger] head_names(t[i].head).contains(c);
        if i < actions.len() {
            assert(t[i] == actions[i]);
        }
    }
    if known_char(actions, c) {
        let i = choose|i: int| 0 <= i < actions.len() && #[trigger] head_names(actions[i].head).contains(c);
        assert(t[i] == actions[i]);
    }
    if head_names(a.head).contains(c) {
        assert(t[actions.len() as int] == a);
    }
}

/// The exec form of [`ActionFilter`].
pub enum ExecFilter<'a> {
    /// Actions whose head matcher accepts the char (known or not).
    Head(char, bool),
    /// Actions tried on chars that no head matcher lists.
    Fallback,
    /// Muted actions, and actions of the kind.
    Kind(SubKindId),
    /// Muted actions, and actions with the literal.
    Literal(&'a str),
    /// Muted actions.
    Muted,
}

impl<'a> ExecFilter<'a> {
    /// The filter this one runs.
    pub open spec fn view(&self) -> ActionFilter {
        match self {
            ExecFilter::Head(c, k) => ActionFilter::Head(*c, *k),
            ExecFilter::Fallback => ActionFilter::Fallback,
            ExecFilter::Kind(k) => ActionFilter::Kind(*k),
            ExecFilter::Literal(l) => ActionFilter::Literal(l@),
            ExecFilter::Muted => ActionFilter::Muted,
        }
    }
}

/// Whether two strings hold the same chars.
pub fn str_eq(a: &str, b: &str) -> (r: bool)
    ensures
        r == (a@ == b@),
{
    let r = str_starts_with(a, b) && str_starts_with(b, a);
    proof {
        assert(a@.take(a@.len() as int) == a@);
        assert(b@.take(b@.len() as int) == b@);
    }
    r
}

/// Whether the filter `f` keeps action `a`.
pub fn keeps_exec(f: &ExecFilter, a: &Action) -> (r: bool)
    ensures
        r == keeps(f.view(), *a),
{
    match f {
        ExecFilter::Head(c, known) => head_accepts_exec(&a.head, *c, *known),
        ExecFilter::Fallback => match &a.head {
            Some(HeadMatcher::OneOf(_)) => false,
            _ => true,
        },
        ExecFilter::Kind(k) => a.muted || a.kind.0 == k.0,
        ExecFilter::Literal(l) => a.muted || match &a.literal {
            Some(s) => str_eq(s.as_str(), l),
            None => false,
        },
        ExecFilter::Muted => a.muted,
    }
}

/// The indexes of `ids` whose actions `f` keeps, in order.
pub fn select_exec(actions: &Vec<Action>, ids: &Vec<usize>, f: &ExecFilter) -> (r: Vec<usize>)
    requires
        valid_ids(ids@, actions@.len()),
    ensures
        r@ == select(actions@, ids@, f.view()),
        valid_ids(r@, actions@.len()),
{
    let mut r: Vec<usize> = Vec::new();
    let mut j: usize = 0;
    while j < ids.len()
        invariant
            j <= ids@.len(),
            valid_ids(ids@, actions@.len()),
            r@ == select(actions@, ids@.take(j as int), f.view()),
        decreases ids@.len() - j,
    {
        let i = ids[j];
        proof {
            assert(ids@.take(j + 1).drop_last() == ids@.take(j as int));
            assert(ids@.take(j + 1).last() == i);
        }
        if keeps_exec(f, &actions[i]) {
            r.push(i);
        }
        j = j + 1;
    }
    assert(ids@.take(ids@.len() as int) == ids@);
    proof {
        lemma_select_valid(actions@, ids@, f.view(), actions@.len());
    }
    r
}

/// The indexes `0..n`.
pub fn all_ids_exec(n: usize) -> (r: Vec<usize>)
    ensures
        r@ == all_ids(n as nat),
{
    let mut r: Vec<usize> = Vec::new();
    let mut i: usize = 0;
    while i < n
        invariant
            i <= n,
            r@ == all_ids(i as nat),
        decreases n - i,
    {
        r.push(i);
        i = i + 1;
        assert(r@ =~= all_ids(i as nat));
    }
    r
}

/// The actions that can emit what is expected at a rest `rest`, in order:
/// the actions whose kind is the expected one (if any), then, if a literal
/// is expected, those with that literal if the rest starts with it, else
/// none; muted actions pass both tests.
pub open spec fn expected_ids(
    actions: Seq<Action>,
    kind: Option<SubKindId>,
    literal: Option<Seq<char>>,
    rest: Seq<char>,
) -> Seq<usize> {
    let s0 = match kind {
        Some(k) => select(actions, all_ids(actions.len()), ActionFilter::Kind(k)),
        None => all_ids(actions.len()),
    };
    match literal {
        Some(l) => if seq_starts_with(rest, l) {
            select(actions, s0, ActionFilter::Literal(l))
        } else {
            select(actions, s0, ActionFilter::Muted)
        },
        None => s0,
    }
}

/// The actions to try at a rest `rest` (not empty), in order: of the
/// [`expected_ids`], those whose head matcher accepts the first char of the
/// rest.
pub open spec fn candidates(
    actions: Seq<Action>,
    kind: Option<SubKindId>,
    literal: Option<Seq<char>>,
    rest: Seq<char>,
) -> Seq<usize> {
    select(actions, expected_ids(actions, kind, literal, rest), ActionFilter::Head(rest[0], known_char(actions, rest[0])))
}

/// The candidates are indexes of actions.
pub proof fn lemma_candidates_valid(
    actions: Seq<Action>,
    kind: Option<SubKindId>,
    literal: Option<Seq<char>>,
    rest: Seq<char>,
)
    ensures
        valid_ids(candidates(actions, kind, literal, rest), actions.len()),
{
    let n = actions.len();
    let all = all_ids(n);
    let s0 = match kind {
        Some(k) => select(actions, all, ActionFilter::Kind(k)),
        None => all,
    };
    match kind {
        Some(k) => lemma_select_valid(actions, all, ActionFilter::Kind(k), n),
        None => {},
    }
    let s1 = match literal {
        Some(l) => if seq_starts_with(rest, l) {
            select(actions, s0, ActionFilter::Literal(l))
        } else {
            select(actions, s0, ActionFilter::Muted)
        },
        None => s0,
    };
    match literal {
        Some(l) => {
            lemma_select_valid(actions, s0, ActionFilter::Literal(l), n);
            lemma_select_valid(actions, s0, ActionFilter::Muted, n);
        },
        None => {},
    }
    lemma_select_valid(actions, s1, ActionFilter::Head(rest[0], known_char(actions, rest[0])), n);
}

/// There are no more candidates than actions.
pub proof fn lemma_candidates_len(
    actions: Seq<Action>,
    kind: Option<SubKindId>,
    literal: Option<Seq<char>>,
    rest: Seq<char>,
)
    ensures
        expected_ids(actions, kind, literal, rest).len() <= actions.len(),
        candidates(actions, kind, literal, rest).len() <= actions.len(),
{
    let n = actions.len();
    let all = all_ids(n);
    let s0 = match kind {
        Some(k) => select(actions, all, ActionFilter::Kind(k)),
        None => all,
    };
    match kind {
        Some(k) => lemma_select_valid(actions, all, ActionFilter::Kind(k), n),
        None => {},
    }
    match literal {
        Some(l) => {
            lemma_select_valid(actions, s0, ActionFilter::Literal(l), n);
            lemma_select_valid(actions, s0, ActionFilter::Muted, n);
        },
        None => {},
    }
    let e = expected_ids(actions, kind, literal, rest);
    lemma_select_valid(actions, e, ActionFilter::Head(rest[0], known_char(actions, rest[0])), n);
}

/// Whether `ids` is strictly increasing.
pub open spec fn increasing(ids: Seq<usize>) -> bool {
    forall|a: int, b: int| 0 <= a < b < ids.len() ==> ids[a] < ids[b]
}

/// A selection holds exactly the indexes of the list whose actions the
/// filter keeps, and keeps an increasing list increasing.
pub proof fn lemma_select_members(actions: Seq<Action>, ids: Seq<usize>, f: ActionFilter)
    ensures
        forall|x: usize|
            #[trigger] select(actions, ids, f).contains(x) <==> (ids.contains(x) && keeps(
                f,
                actions[x as int],
            )),
        increasing(ids) ==> increasing(select(actions, ids, f)),
        forall|a: int|
            0 <= a < select(actions, ids, f).len() ==> exists|b: int|
                0 <= b < ids.len() && ids[b] == #[trigger] select(actions, ids, f)[a],
    decreases ids.len(),
{
    if ids.len() > 0 {
        let p = ids.drop_last();
        let l = ids.last();
        lemma_select_members(actions, p, f);
        let sp = select(actions, p, f);
        let s = select(actions, ids, f);
        assert(ids == p.push(l));
        assert forall|x: usize| #[trigger] s.contains(x) <==> (ids.contains(x) && keeps(f, actions[x as int])) by {
            assert(sp.contains(x) <==> (p.contains(x) && keeps(f, actions[x as int])));
            if s.contains(x) {
                let a = choose|a: int| 0 <= a < s.len() && s[a] == x;
                if keeps(f, actions[l as int]) {
                    assert(s == sp.push(l));
                    if a < sp.len() {
                        assert(sp[a] == x);
                        assert(sp.contains(x));
                        let b = choose|b: int| 0 <= b < p.len() && p[b] == x;
                        assert(ids[b] == x);
                    } else {
                        assert(x == l);
                        assert(ids[ids.len() - 1] == x);
                    }
                } else {
                    assert(s == sp);
                    assert(sp.contains(x));
                    let b = choose|b: int| 0 <= b < p.len() && p[b] == x;
                    assert(ids[b] == x);
                }
            }
            if ids.contains(x) && keeps(f, actions[x as int]) {
                let b = choose|b: int| 0 <= b < ids.len() && ids[b] == x;
                if b < p.len() {
                    assert(p[b] == x);
                    assert(p.contains(x));
                    let a = choose|a: int| 0 <= a < sp.len() && sp[a] == x;
                    if keeps(f, actions[l as int]) {
                        assert(s[a] == x);
                    } else {
                        assert(s[a] == x);
                    }
                } else {
                    assert(x == l);
                    assert(s[s.len() - 1] == x);
                }
            }
        }
        assert forall|a: int| 0 <= a < s.len() implies exists|b: int|
            0 <= b < ids.len() && ids[b] == #[trigger] s[a] by {
            if a < sp.len() {
                assert(s[a] == sp[a]);
                let b = choose|b: int| 0 <= b < p.len() && p[b] == sp[a];
                assert(ids[b] == s[a]);
            } else {
                assert(ids[ids.len() - 1] == s[a]);
            }
        }
        if increasing(ids) {
            assert(increasing(p));
            assert forall|a: int, b: int| 0 <= a < b < s.len() implies s[a] < s[b] by {
                if b < sp.len() {
                    assert(s[a] == sp[a] && s[b] == sp[b]);
                } else {
                    assert(s[a] == sp[a]);
                    let c = choose|c: int| 0 <= c < p.len() && p[c] == #[trigger] sp[a];
                    assert(ids[c] == sp[a]);
                    assert(ids[ids.len() - 1] == l);
                }
            }
        }
    }
}

/// Whether action `a` is tried at a rest `rest` (not empty) for the
/// expected kind and literal: it is muted or of the expected kind; if a
/// literal is expected, it is muted, or has that literal and the rest
/// starts with it; and its head matcher accepts the first char of the rest.
pub open spec fn tried(
    actions: Seq<Action>,
    kind: Option<SubKindId>,
    literal: Option<Seq<char>>,
    rest: Seq<char>,
    a: Action,
) -> bool {
    &&& (kind matches Some(k) ==> a.muted || a.kind == k)
    &&& (literal matches Some(l) ==> a.muted || (seq_starts_with(rest, l) && (a.literal matches Some(s) && s@ == l)))
    &&& head_accepts(a.head, rest[0], known_char(actions, rest[0]))
}

/// The lexer tries the actions in their order, skipping exactly those that
/// cannot emit what is expected or cannot accept the first char: the
/// candidates are the indexes of the tried actions, increasing.
pub proof fn law_candidates_in_order(
    actions: Seq<Action>,
    kind: Option<SubKindId>,
    literal: Option<Seq<char>>,
    rest: Seq<char>,
)
    requires
        rest.len() > 0,
        actions.len() <= usize::MAX,
    ensures
        increasing(candidates(actions, kind, literal, rest)),
        forall|i: usize|
            #[trigger] candidates(actions, kind, literal, rest).contains(i) <==> (i < actions.len()
                && tried(actions, kind, literal, rest, actions[i as int])),
{
    let n = actions.len();
    let all = all_ids(n);
    assert forall|x: usize| all.contains(x) <==> x < n by {
        if x < n {
            assert(all[x as int] == x);
        }
    }
    assert(increasing(all));
    let s0 = match kind {
        Some(k) => select(actions, all, ActionFilter::Kind(k)),
        None => all,
    };
    match kind {
        Some(k) => lemma_select_members(actions, all, ActionFilter::Kind(k)),
        None => {},
    }
    let s1 = match literal {
        Some(l) => if seq_starts_with(rest, l) {
            select(actions, s0, ActionFilter::Literal(l))
        } else {
            select(actions, s0, ActionFilter::Muted)
        },
        None => s0,
    };
    match literal {
        Some(l) => {
            lemma_select_members(actions, s0, ActionFilter::Literal(l));
            lemma_select_members(actions, s0, ActionFilter::Muted);
        },
        None => {},
    }
    let h = ActionFilter::Head(rest[0], known_char(actions, rest[0]));
    lemma_select_members(actions, s1, h);
    let c = candidates(actions, kind, literal, rest);
    assert(c == select(actions, s1, h));
    assert forall|i: usize| #[trigger] c.contains(i) <==> (i < actions.len() && tried(
        actions,
        kind,
        literal,
        rest,
        actions[i as int],
    )) by {
        assert(c.contains(i) <==> (s1.contains(i) && keeps(h, actions[i as int])));
        assert(s0.contains(i) <==> (i < n && (kind matches Some(k) ==> keeps(ActionFilter::Kind(k), actions[i as int]))));
    }
}

/// The lists the maps of a stateless lexer hold are selections of all its
/// actions (see [`StatelessLexer::head_map`], [`HeadMap::get`],
/// [`LiteralMap::known_map`], [`LiteralMap::muted_map`]): the head map's
/// list for a char `c` keeps the actions whose head matcher accepts `c`
/// (`ActionFilter::Head`), a kind's maps keep the muted actions and those of
/// that kind, a literal's map keeps the muted actions and those with that
/// literal, the muted map keeps the muted actions. Each such selection holds
/// exactly the actions that its filter keeps, in their original order.
pub proof fn law_selection_in_order(actions: Seq<Action>, f: ActionFilter)
    requires
        actions.len() <= usize::MAX,
    ensures
        increasing(select(actions, all_ids(actions.len()), f)),
        forall|i: usize|
            #[trigger] select(actions, all_ids(actions.len()), f).contains(i) <==> (i < actions.len() && keeps(
                f,
                actions[i as int],
            )),
{
    let n = actions.len();
    let all = all_ids(n);
    assert forall|x: usize| all.contains(x) <==> x < n by {
        if x < n {
            assert(all[x as int] == x);
        }
    }
    assert(increasing(all));
    lemma_select_members(actions, all, f);
}

/// The head map and literal map of the actions of one kind.
#[derive(Clone, Debug)]
pub struct KindMaps {
    /// The kind.
    pub kind: SubKindId,
    head_map: HeadMap,
    literal_map: LiteralMap,
}

/// An immutable list of actions, with the maps that select the actions to
/// try for an expectation and a first char.
#[derive(Debug)]
pub struct StatelessLexer {
    actions: Vec<Action>,
    head_map: HeadMap,
    literal_map: LiteralMap,
    kind_maps: Vec<KindMaps>,
}

impl StatelessLexer {
    /// The actions, in order.
    pub closed spec fn spec_actions(&self) -> Seq<Action> {
        self.actions@
    }

    /// The maps agree with the actions.
    #[verifier::type_invariant]
    pub closed spec fn wf(&self) -> bool {
        let actions = self.actions@;
        let all = all_ids(actions.len());
        &&& self.head_map.wf(actions, all)
        &&& self.literal_map.wf(actions, all)
        &&& forall|j: int|
            0 <= j < self.kind_maps@.len() ==> {
                let m = #[trigger] self.kind_maps@[j];
                &&& m.head_map.wf(actions, select(actions, all, ActionFilter::Kind(m.kind)))
                &&& m.literal_map.wf(actions, select(actions, all, ActionFilter::Kind(m.kind)))
            }
        &&& forall|k: SubKindId| known_kind(actions, k) ==> exists|j: int|
            0 <= j < self.kind_maps@.len() && #[trigger] self.kind_maps@[j].kind == k
    }

    /// Create a lexer with the given actions.
    pub fn new(actions: Vec<Action>) -> (r: Self)
        ensures
            r.spec_actions() == actions@,
    {
        let all = all_ids_exec(actions.len());
        assert(valid_ids(all@, actions@.len()));
        let known_chars = HeadMap::collect_all_known(&actions);
        let known_literals = LiteralMap::collect_all_known(&actions);
        let kind_maps = Self::init_kind_map(&actions, &all, &known_chars, &known_literals);
        let literal_map = LiteralMap::new(&actions, &all, &known_literals, &known_chars);
        let head_map = HeadMap::new(&actions, &all, &known_chars);
        proof {
            assert(head_map.wf(actions@, all_ids(actions@.len())));
            assert(literal_map.wf(actions@, all_ids(actions@.len())));
            assert(all@ == all_ids(actions@.len()));
            assert forall|j: int| 0 <= j < kind_maps@.len() implies {
                let m = #[trigger] kind_maps@[j];
                &&& m.head_map.wf(actions@, select(actions@, all_ids(actions@.len()), ActionFilter::Kind(m.kind)))
                &&& m.literal_map.wf(actions@, select(actions@, all_ids(actions@.len()), ActionFilter::Kind(m.kind)))
            } by {
                let m = kind_maps@[j];
                assert(m.head_map.wf(actions@, select(actions@, all@, ActionFilter::Kind(m.kind))));
            }
            assert(forall|k: SubKindId| known_kind(actions@, k) ==> exists|j: int|
                0 <= j < kind_maps@.len() && #[trigger] kind_maps@[j].kind == k);
            let ghost g = StatelessLexer { actions, head_map, literal_map, kind_maps };
            assert(g.actions@ == actions@);
            assert(g.head_map.wf(g.actions@, all_ids(g.actions@.len())));
            assert(g.literal_map.wf(g.actions@, all_ids(g.actions@.len())));
            assert(g.kind_maps@ == kind_maps@);
            assert(g.wf());
        }
        StatelessLexer { actions, head_map, literal_map, kind_maps }
    }

    /// One [`KindMaps`] per kind of the actions.
    fn init_kind_map(
        actions: &Vec<Action>,
        all: &Vec<usize>,
        known_chars: &Vec<char>,
        known_literals: &Vec<String>,
    ) -> (r: Vec<KindMaps>)
        requires
            all@ == all_ids(actions@.len()),
            forall|c: char| known_chars@.contains(c) <==> known_char(actions@, c),
            forall|l: Seq<char>| known_literal(actions@, l) ==> exists|j: int|
                0 <= j < known_literals@.len() && #[trigger] known_literals@[j]@ == l,
        ensures
            forall|j: int|
                0 <= j < r@.len() ==> {
                    let m = #[trigger] r@[j];
                    &&& m.head_map.wf(actions@, select(actions@, all@, ActionFilter::Kind(m.kind)))
                    &&& m.literal_map.wf(actions@, select(actions@, all@, ActionFilter::Kind(m.kind)))
                },
            forall|k: SubKindId| known_kind(actions@, k) ==> exists|j: int|
                0 <= j < r@.len() && #[trigger] r@[j].kind == k,
    {
        let mut r: Vec<KindMaps> = Vec::new();
        let mut i: usize = 0;
        assert(valid_ids(all@, actions@.len()));
        while i < actions.len()
            invariant
                i <= actions@.len(),
                all@ == all_ids(actions@.len()),
                valid_ids(all@, actions@.len()),
                forall|c: char| known_chars@.contains(c) <==> known_char(actions@, c),
                forall|l: Seq<char>| known_literal(actions@, l) ==> exists|j: int|
                    0 <= j < known_literals@.len() && #[trigger] known_literals@[j]@ == l,
                forall|j: int|
                    0 <= j < r@.len() ==> {
                        let m = #[trigger] r@[j];
                        &&& m.head_map.wf(actions@, select(actions@, all@, ActionFilter::Kind(m.kind)))
                        &&& m.literal_map.wf(
                            actions@,
                            select(actions@, all@, ActionFilter::Kind(m.kind)),
                        )
                    },
                forall|l: int|
                    #![trigger actions@[l]]
                    0 <= l < i ==> exists|j: int|
                        0 <= j < r@.len() && #[trigger] r@[j].kind == actions@[l].kind,
            decreases actions@.len() - i,
        {
            let kind = actions[i].kind;
            let ghost old_r = r@;
            let mut seen = false;
            let mut j: usize = 0;
            while j < r.len()
                invariant
                    j <= r@.len(),
                    seen ==> exists|m: int| 0 <= m < r@.len() && #[trigger] r@[m].kind == kind,
                decreases r@.len() - j,
            {
                if r[j].kind.0 == kind.0 {
                    seen = true;
                }
                j = j + 1;
            }
            if !seen {
                let ids = select_exec(actions, all, &ExecFilter::Kind(kind));
                let head_map = HeadMap::new(actions, &ids, known_chars);
                let literal_map = LiteralMap::new(actions, &ids, known_literals, known_chars);
                r.push(KindMaps { kind, head_map, literal_map });
                assert(r@[r@.len() - 1].kind == kind);
            }
            proof {
                assert forall|l: int|
                    #![trigger actions@[l]]
                    0 <= l < i + 1 implies exists|j: int|
                        0 <= j < r@.len() && #[trigger] r@[j].kind == actions@[l].kind by {
                    if l < i {
                        let j = choose|j: int| 0 <= j < old_r.len() && #[trigger] old_r[j].kind == actions@[l].kind;
                        assert(r@[j] == old_r[j]);
                    }
                }
            }
            i = i + 1;
        }
        proof {
            assert forall|k: SubKindId| known_kind(actions@, k) implies exists|j: int|
                0 <= j < r@.len() && #[trigger] r@[j].kind == k by {
                let l = choose|l: int| 0 <= l < actions@.len() && #[trigger] actions@[l].kind == k;
                assert(exists|j: int| 0 <= j < r@.len() && #[trigger] r@[j].kind == actions@[l].kind);
            }
        }
        r
    }

    /// The actions.
    pub fn actions(&self) -> (r: &Vec<Action>)
        ensures
            r@ == self.spec_actions(),
    {
        &self.actions
    }

    /// The head map of all actions.
    pub fn head_map(&self) -> (r: &HeadMap)
        ensures
            r.wf(self.spec_actions(), all_ids(self.spec_actions().len())),
    {
        proof {
            use_type_invariant(self);
        }
        &self.head_map
    }

    /// The literal map of all actions.
    pub fn literal_map(&self) -> (r: &LiteralMap)
        ensures
            r.wf(self.spec_actions(), all_ids(self.spec_actions().len())),
    {
        proof {
            use_type_invariant(self);
        }
        &self.literal_map
    }

    /// The literal map of the actions of kind `kind`, if some action has it.
    pub fn kind_literal_map(&self, kind: SubKindId) -> (r: Option<&LiteralMap>)
        ensures
            known_kind(self.spec_actions(), kind) ==> r is Some,
            r matches Some(lm) ==> lm.wf(
                self.spec_actions(),
                select(self.spec_actions(), all_ids(self.spec_actions().len()), ActionFilter::Kind(kind)),
            ),
    {
        proof {
            use_type_invariant(self);
        }
        let mut j: usize = 0;
        while j < self.kind_maps.len()
            invariant
                j <= self.kind_maps@.len(),
                forall|m: int| 0 <= m < j ==> #[trigger] self.kind_maps@[m].kind != kind,
                self.wf(),
            decreases self.kind_maps@.len() - j,
        {
            if self.kind_maps[j].kind.0 == kind.0 {
                return Some(&self.kind_maps[j].literal_map);
            }
            j = j + 1;
        }
        None
    }

    /// The head map of the actions of kind `kind`, if some action has it.
    pub fn kind_head_map(&self, kind: SubKindId) -> (r: Option<&HeadMap>)
        ensures
            known_kind(self.spec_actions(), kind) ==> r is Some,
            r matches Some(hm) ==> hm.wf(
                self.spec_actions(),
                select(self.spec_actions(), all_ids(self.spec_actions().len()), ActionFilter::Kind(kind)),
            ),
    {
        proof {
            use_type_invariant(self);
        }
        let mut j: usize = 0;
        while j < self.kind_maps.len()
            invariant
                j <= self.kind_maps@.len(),
                forall|m: int| 0 <= m < j ==> #[trigger] self.kind_maps@[m].kind != kind,
                self.wf(),
            decreases self.kind_maps@.len() - j,
        {
            if self.kind_maps[j].kind.0 == kind.0 {
                return Some(&self.kind_maps[j].head_map);
            }
            j = j + 1;
        }
        None
    }
}

} // verus!
