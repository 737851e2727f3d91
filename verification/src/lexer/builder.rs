//! Build a lexer from actions.
use crate::kind::SubKindId;
use crate::lexer::action::Action;
use crate::lexer::lexer::{IntoLexer, Lexer};
use crate::lexer::stateless::StatelessLexer;
use vstd::prelude::*;

verus! {

/// One or more actions to add to a builder.
#[derive(Debug)]
pub struct ActionList(pub Vec<Action>);

impl ActionList {
    /// A list of one action.
    pub fn single(value: Action) -> (r: Self)
        ensures
            r.0@ == seq![value],
    {
        let v = vec![value];
        assert(v@ =~= seq![value]);
        ActionList(v)
    }
}

impl From<Vec<Action>> for ActionList {
    fn from(value: Vec<Action>) -> (r: Self) {
        ActionList(value)
    }
}

impl vstd::std_specs::convert::FromSpecImpl<Vec<Action>> for ActionList {
    open spec fn obeys_from_spec() -> bool {
        true
    }

    open spec fn from_spec(value: Vec<Action>) -> Self {
        ActionList(value)
    }
}

impl From<Action> for ActionList {
    fn from(value: Action) -> (r: Self)
        ensures
            r.0@ == seq![value],
    {
        ActionList::single(value)
    }
}

impl vstd::std_specs::convert::FromSpecImpl<Action> for ActionList {
    open spec fn obeys_from_spec() -> bool {
        false
    }

    open spec fn from_spec(value: Action) -> Self {
        choose|l: ActionList| l.0@ == seq![value]
    }
}

/// `Vec::from` on an array: a vector of the array's items, in order.
#[verifier::external_body]
fn array_into_vec<T, const N: usize>(a: [T; N]) -> (r: Vec<T>)
    ensures
        r@ == a@,
{
    Vec::from(a)
}

impl<const N: usize> From<[Action; N]> for ActionList {
    fn from(value: [Action; N]) -> (r: Self)
        ensures
            r.0@ == value@,
    {
        ActionList(array_into_vec(value))
    }
}

impl<const N: usize> vstd::std_specs::convert::FromSpecImpl<[Action; N]> for ActionList {
    open spec fn obeys_from_spec() -> bool {
        false
    }

    open spec fn from_spec(value: [Action; N]) -> Self {
        choose|l: ActionList| l.0@ == value@
    }
}

/// Action `a` bound to `kind` if it is `Some`, and muted if `mute`.
pub open spec fn transformed(a: Action, kind: Option<SubKindId>, mute: bool) -> Action {
    Action {
        kind: match kind {
            Some(k) => k,
            None => a.kind,
        },
        muted: if mute {
            true
        } else {
            a.muted
        },
        ..a
    }
}

/// Bind each action to `kind` if it is `Some`, and mute each if `mute`.
pub fn transform(actions: Vec<Action>, kind: Option<SubKindId>, mute: bool) -> (r: Vec<Action>)
    ensures
        r@ == actions@.map_values(|a: Action| transformed(a, kind, mute)),
{
    let ghost orig = actions@;
    let mut actions = actions;
    let mut r: Vec<Action> = Vec::new();
    let ghost mut i: int = 0;
    while actions.len() > 0
        invariant
            0 <= i <= orig.len(),
            actions@ == orig.skip(i),
            r@ == orig.take(i).map_values(|a: Action| transformed(a, kind, mute)),
        decreases actions@.len(),
    {
        let a = actions.remove(0);
        let b = match kind {
            Some(k) => a.bind(k),
            None => a,
        };
        let c = if mute {
            b.mute()
        } else {
            b
        };
        r.push(c);
        proof {
            assert(orig.take(i + 1) == orig.take(i).push(orig[i]));
            assert(orig.skip(i + 1) == orig.skip(i).drop_first());
            i = i + 1;
        }
    }
    assert(orig.take(i) == orig);
    r
}

/// Apply `decorator` to each action.
pub fn map_actions<F: Fn(Action) -> Action>(actions: Vec<Action>, decorator: F) -> (r: Vec<Action>)
    requires
        forall|a: Action| #[trigger] decorator.requires((a,)),
    ensures
        r@.len() == actions@.len(),
        forall|i: int| 0 <= i < actions@.len() ==> decorator.ensures((actions@[i],), #[trigger] r@[i]),
{
    let ghost orig = actions@;
    let mut actions = actions;
    let mut r: Vec<Action> = Vec::new();
    let ghost mut i: int = 0;
    while actions.len() > 0
        invariant
            0 <= i <= orig.len(),
            actions@ == orig.skip(i),
            r@.len() == i,
            forall|a: Action| #[trigger] decorator.requires((a,)),
            forall|j: int| 0 <= j < i ==> decorator.ensures((orig[j],), #[trigger] r@[j]),
        decreases actions@.len(),
    {
        let a = actions.remove(0);
        let b = decorator(a);
        r.push(b);
        proof {
            assert(orig.skip(i + 1) == orig.skip(i).drop_first());
            i = i + 1;
        }
    }
    r
}

/// A builder of lexers: a list of actions.
#[derive(Debug)]
pub struct LexerBuilder {
    actions: Vec<Action>,
}

impl LexerBuilder {
    /// The actions, in order.
    pub closed spec fn spec_actions(&self) -> Seq<Action> {
        self.actions@
    }

    /// A builder with no actions.
    pub fn new() -> (r: Self)
        ensures
            r.spec_actions() == Seq::<Action>::empty(),
    {
        LexerBuilder { actions: Vec::new() }
    }

    /// A builder with no actions, for a lexer with a state.
    pub fn stateful() -> (r: Self)
        ensures
            r.spec_actions() == Seq::<Action>::empty(),
    {
        LexerBuilder::new()
    }

    /// The actions, in order.
    pub fn actions(&self) -> (r: &Vec<Action>)
        ensures
            r@ == self.spec_actions(),
    {
        &self.actions
    }

    /// Add actions at the end.
    pub fn append(self, actions: ActionList) -> (r: Self)
        ensures
            r.spec_actions() == self.spec_actions() + actions.0@,
    {
        let mut list = self.actions;
        let mut more = actions.0;
        list.append(&mut more);
        LexerBuilder { actions: list }
    }

    /// Add actions at the end, each changed by `decorator`.
    pub fn append_with<F: Fn(Action) -> Action>(self, actions: ActionList, decorator: F) -> (r: Self)
        requires
            forall|a: Action| #[trigger] decorator.requires((a,)),
        ensures
            r.spec_actions().len() == self.spec_actions().len() + actions.0@.len(),
            r.spec_actions().take(self.spec_actions().len() as int) == self.spec_actions(),
            forall|i: int|
                0 <= i < actions.0@.len() ==> decorator.ensures(
                    (actions.0@[i],),
                    #[trigger] r.spec_actions()[self.spec_actions().len() + i],
                ),
    {
        let ghost n = self.actions@.len();
        let mapped = map_actions(actions.0, decorator);
        let r = self.append(ActionList(mapped));
        proof {
            assert(r.spec_actions().take(n as int) == self.spec_actions());
            assert forall|i: int| 0 <= i < actions.0@.len() implies decorator.ensures(
                (actions.0@[i],),
                #[trigger] r.spec_actions()[n + i],
            ) by {
                assert(r.spec_actions()[n + i] == mapped@[i]);
            }
        }
        r
    }

    /// Add actions at the end, bound to the default kind.
    pub fn append_default(self, actions: ActionList) -> (r: Self)
        ensures
            r.spec_actions() == self.spec_actions() + actions.0@.map_values(
                |a: Action| transformed(a, Some(SubKindId(0)), false),
            ),
    {
        let list = transform(actions.0, Some(SubKindId(0)), false);
        self.append(ActionList(list))
    }

    /// Add actions at the end, each changed by `decorator` and then bound to
    /// the default kind.
    pub fn append_default_with<F: Fn(Action) -> Action>(self, actions: ActionList, decorator: F) -> (r: Self)
        requires
            forall|a: Action| #[trigger] decorator.requires((a,)),
        ensures
            r.spec_actions().len() == self.spec_actions().len() + actions.0@.len(),
            r.spec_actions().take(self.spec_actions().len() as int) == self.spec_actions(),
            forall|i: int|
                0 <= i < actions.0@.len() ==> exists|b: Action|
                    decorator.ensures((actions.0@[i],), b) && #[trigger] r.spec_actions()[
                    self.spec_actions().len() + i] == transformed(b, Some(SubKindId(0)), false),
    {
        let ghost n = self.actions@.len();
        let mapped = map_actions(actions.0, decorator);
        let ghost m = mapped@;
        let r = self.append_default(ActionList(mapped));
        proof {
            assert(r.spec_actions().take(n as int) == self.spec_actions());
            assert forall|i: int| 0 <= i < actions.0@.len() implies exists|b: Action|
                decorator.ensures((actions.0@[i],), b) && #[trigger] r.spec_actions()[n + i]
                    == transformed(b, Some(SubKindId(0)), false) by {
                assert(decorator.ensures((actions.0@[i],), m[i]));
                assert(r.spec_actions()[n + i] == transformed(m[i], Some(SubKindId(0)), false));
            }
        }
        r
    }

    /// Add actions at the end, bound to `kind`.
    pub fn define(self, kind: SubKindId, actions: ActionList) -> (r: Self)
        ensures
            r.spec_actions() == self.spec_actions() + actions.0@.map_values(
                |a: Action| transformed(a, Some(kind), false),
            ),
    {
        let list = transform(actions.0, Some(kind), false);
        self.append(ActionList(list))
    }

    /// Add actions at the end, each changed by `decorator` and then bound to `kind`.
    pub fn define_with<F: Fn(Action) -> Action>(self, kind: SubKindId, actions: ActionList, decorator: F) -> (r: Self)
        requires
            forall|a: Action| #[trigger] decorator.requires((a,)),
        ensures
            r.spec_actions().len() == self.spec_actions().len() + actions.0@.len(),
            r.spec_actions().take(self.spec_actions().len() as int) == self.spec_actions(),
            forall|i: int|
                0 <= i < actions.0@.len() ==> exists|b: Action|
                    decorator.ensures((actions.0@[i],), b) && #[trigger] r.spec_actions()[
                    self.spec_actions().len() + i] == transformed(b, Some(kind), false),
    {
        let ghost n = self.actions@.len();
        let mapped = map_actions(actions.0, decorator);
        let ghost m = mapped@;
        let r = self.define(kind, ActionList(mapped));
        proof {
            assert(r.spec_actions().take(n as int) == self.spec_actions());
            assert forall|i: int| 0 <= i < actions.0@.len() implies exists|b: Action|
                decorator.ensures((actions.0@[i],), b) && #[trigger] r.spec_actions()[n + i]
                    == transformed(b, Some(kind), false) by {
                assert(decorator.ensures((actions.0@[i],), m[i]));
                assert(r.spec_actions()[n + i] == transformed(m[i], Some(kind), false));
            }
        }
        r
    }

    /// Add actions at the end, muted.
    pub fn ignore(self, actions: ActionList) -> (r: Self)
        ensures
            r.spec_actions() == self.spec_actions() + actions.0@.map_values(
                |a: Action| transformed(a, None, true),
            ),
    {
        let list = transform(actions.0, None, true);
        self.append(ActionList(list))
    }

    /// Add actions at the end, each changed by `decorator` and then muted.
    pub fn ignore_with<F: Fn(Action) -> Action>(self, actions: ActionList, decorator: F) -> (r: Self)
        requires
            forall|a: Action| #[trigger] decorator.requires((a,)),
        ensures
            r.spec_actions().len() == self.spec_actions().len() + actions.0@.len(),
            r.spec_actions().take(self.spec_actions().len() as int) == self.spec_actions(),
            forall|i: int|
                0 <= i < actions.0@.len() ==> exists|b: Action|
                    decorator.ensures((actions.0@[i],), b) && #[trigger] r.spec_actions()[
                    self.spec_actions().len() + i] == transformed(b, None, true),
    {
        let ghost n = self.actions@.len();
        let mapped = map_actions(actions.0, decorator);
        let ghost m = mapped@;
        let r = self.ignore(ActionList(mapped));
        proof {
            assert(r.spec_actions().take(n as int) == self.spec_actions());
            assert forall|i: int| 0 <= i < actions.0@.len() implies exists|b: Action|
                decorator.ensures((actions.0@[i],), b) && #[trigger] r.spec_actions()[n + i]
                    == transformed(b, None, true) by {
                assert(decorator.ensures((actions.0@[i],), m[i]));
                assert(r.spec_actions()[n + i] == transformed(m[i], None, true));
            }
        }
        r
    }

    /// Add actions at the end, muted and bound to the default kind.
    pub fn ignore_default(self, actions: ActionList) -> (r: Self)
        ensures
            r.spec_actions() == self.spec_actions() + actions.0@.map_values(
                |a: Action| transformed(a, Some(SubKindId(0)), true),
            ),
    {
        let list = transform(actions.0, Some(SubKindId(0)), true);
        self.append(ActionList(list))
    }

    /// Add actions at the end, each changed by `decorator`, then muted and
    /// bound to the default kind.
    pub fn ignore_default_with<F: Fn(Action) -> Action>(self, actions: ActionList, decorator: F) -> (r: Self)
        requires
            forall|a: Action| #[trigger] decorator.requires((a,)),
        ensures
            r.spec_actions().len() == self.spec_actions().len() + actions.0@.len(),
            r.spec_actions().take(self.spec_actions().len() as int) == self.spec_actions(),
            forall|i: int|
                0 <= i < actions.0@.len() ==> exists|b: Action|
                    decorator.ensures((actions.0@[i],), b) && #[trigger] r.spec_actions()[
                    self.spec_actions().len() + i] == transformed(b, Some(SubKindId(0)), true),
    {
        let ghost n = self.actions@.len();
        let mapped = map_actions(actions.0, decorator);
        let ghost m = mapped@;
        let r = self.ignore_default(ActionList(mapped));
        proof {
            assert(r.spec_actions().take(n as int) == self.spec_actions());
            assert forall|i: int| 0 <= i < actions.0@.len() implies exists|b: Action|
                decorator.ensures((actions.0@[i],), b) && #[trigger] r.spec_actions()[n + i]
                    == transformed(b, Some(SubKindId(0)), true) by {
                assert(decorator.ensures((actions.0@[i],), m[i]));
                assert(r.spec_actions()[n + i] == transformed(m[i], Some(SubKindId(0)), true));
            }
        }
        r
    }

    /// `Ok` with the builder if every action has a head matcher; else `Err`
    /// with the indexes of the actions without one, in order, and the builder.
    pub fn ensure_head_matcher(self) -> (r: Result<Self, (Vec<usize>, Self)>)
        ensures
            match r {
                Ok(b) => b.spec_actions() == self.spec_actions() && forall|i: int|
                    0 <= i < self.spec_actions().len() ==> #[trigger] self.spec_actions()[i].head is Some,
                Err((ids, b)) => {
                    &&& b.spec_actions() == self.spec_actions()
                    &&& ids@.len() > 0
                    &&& forall|j: int|
                        0 <= j < ids@.len() ==> #[trigger] ids@[j] < self.spec_actions().len()
                            && self.spec_actions()[ids@[j] as int].head is None
                    &&& forall|j: int, l: int| 0 <= j < l < ids@.len() ==> ids@[j] < ids@[l]
                    &&& forall|i: int|
                        0 <= i < self.spec_actions().len() && #[trigger] self.spec_actions()[i].head
                            is None ==> ids@.contains(i as usize)
                },
            },
    {
        let mut invalid: Vec<usize> = Vec::new();
        let mut i: usize = 0;
        while i < self.actions.len()
            invariant
                i <= self.actions@.len(),
                forall|j: int|
                    0 <= j < invalid@.len() ==> #[trigger] invalid@[j] < i && self.actions@[invalid@[j] as int].head
                        is None,
                forall|j: int, l: int| 0 <= j < l < invalid@.len() ==> invalid@[j] < invalid@[l],
                forall|m: int|
                    0 <= m < i && #[trigger] self.actions@[m].head is None ==> invalid@.contains(m as usize),
            decreases self.actions@.len() - i,
        {
            let ghost old_inv = invalid@;
            if self.actions[i].head.is_none() {
                invalid.push(i);
                assert(invalid@[invalid@.len() - 1] == i);
            }
            proof {
                assert forall|m: int|
                    0 <= m < i + 1 && #[trigger] self.actions@[m].head is None implies invalid@.contains(
                    m as usize,
                ) by {
                    if m < i {
                        assert(old_inv.contains(m as usize));
                        let j = choose|j: int| 0 <= j < old_inv.len() && old_inv[j] == m as usize;
                        assert(invalid@[j] == m as usize);
                    } else {
                        assert(invalid@[invalid@.len() - 1] == i);
                    }
                }
            }
            i = i + 1;
        }
        if invalid.len() == 0 {
            proof {
                assert forall|m: int| 0 <= m < self.actions@.len() implies #[trigger] self.actions@[m].head is Some by {
                    if self.actions@[m].head is None {
                        assert(invalid@.contains(m as usize));
                    }
                }
            }
            Ok(self)
        } else {
            Err((invalid, self))
        }
    }

    /// A stateless lexer with the actions.
    pub fn build_stateless(self) -> (r: StatelessLexer)
        ensures
            r.spec_actions() == self.spec_actions(),
    {
        StatelessLexer::new(self.actions)
    }

    /// A lexer of `text` with the actions and the state `state`.
    pub fn build_with<'text, State>(self, state: State, text: &'text str) -> (r: Lexer<'text, State>)
        ensures
            r.spec_actions() == self.spec_actions(),
            r.spec_state() == state,
            r.spec_instant().spec_text() == text,
            r.spec_instant().spec_digested() == 0,
            r.spec_instant().spec_trimmed() == (text@.len() == 0),
    {
        self.into_lexer_with(state, text)
    }

    /// A lexer of `text` with the actions and the default state.
    pub fn build<'text, State: Default>(self, text: &'text str) -> (r: Lexer<'text, State>)
        ensures
            r.spec_actions() == self.spec_actions(),
            call_ensures(State::default, (), r.spec_state()),
            r.spec_instant().spec_text() == text,
            r.spec_instant().spec_digested() == 0,
            r.spec_instant().spec_trimmed() == (text@.len() == 0),
    {
        let state = State::default();
        self.into_lexer_with(state, text)
    }
}

impl<State> IntoLexer<State> for LexerBuilder {
    open spec fn spec_into_actions(&self) -> Seq<Action> {
        self.spec_actions()
    }

    fn into_lexer_with<'text>(self, state: State, text: &'text str) -> (r: Lexer<'text, State>) {
        self.build_stateless().into_lexer_with(state, text)
    }
}

impl Default for LexerBuilder {
    fn default() -> (r: Self)
        ensures
            r.spec_actions() == Seq::<Action>::empty(),
    {
        LexerBuilder::new()
    }
}

} // verus!
