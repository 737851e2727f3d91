//! Head maps: for each first char of the rest, the actions to try, in order.
use super::{keeps_exec, known_char, lemma_select_head_unknown, select, valid_ids, ActionFilter, ExecFilter};
use crate::lexer::action::{head_accepts, Action, HeadMatcher};
use crate::lexer::action::class::{copy_chars, vec_contains_char};
use vstd::prelude::*;

verus! {

/// A list of actions to try, by their index in the lexer's action list,
/// with whether each is muted.
#[derive(Clone, Debug)]
pub struct RuntimeActions {
    execs: Vec<usize>,
    muted: Vec<bool>,
}

impl RuntimeActions {
    /// The action indexes.
    pub closed spec fn spec_ids(&self) -> Seq<usize> {
        self.execs@
    }

    /// The muted flags, one per action index.
    pub closed spec fn spec_muted(&self) -> Seq<bool> {
        self.muted@
    }

    /// Both lists have one entry per action.
    pub open spec fn wf(&self) -> bool {
        self.spec_ids().len() == self.spec_muted().len()
    }

    /// Whether this list holds the actions `ids` of `actions`, with their muted flags.
    pub open spec fn holds(&self, actions: Seq<Action>, ids: Seq<usize>) -> bool {
        &&& self.wf()
        &&& self.spec_ids() == ids
        &&& forall|j: int|
            0 <= j < ids.len() ==> #[trigger] self.spec_muted()[j] == actions[ids[j] as int].muted
    }

    /// An empty list.
    pub fn new() -> (r: Self)
        ensures
            r.wf(),
            r.spec_ids() == Seq::<usize>::empty(),
            r.spec_muted() == Seq::<bool>::empty(),
    {
        RuntimeActions { execs: Vec::new(), muted: Vec::new() }
    }

    /// The action indexes.
    pub fn execs(&self) -> (r: &Vec<usize>)
        ensures
            r@ == self.spec_ids(),
    {
        &self.execs
    }

    /// The muted flags.
    pub fn muted(&self) -> (r: &Vec<bool>)
        ensures
            r@ == self.spec_muted(),
    {
        &self.muted
    }

    /// Append an action index with its muted flag.
    pub fn push(&mut self, exec: usize, muted: bool)
        requires
            old(self).wf(),
        ensures
            final(self).wf(),
            final(self).spec_ids() == old(self).spec_ids().push(exec),
            final(self).spec_muted() == old(self).spec_muted().push(muted),
    {
        self.execs.push(exec);
        self.muted.push(muted);
    }

    /// The number of actions.
    pub fn len(&self) -> (r: usize)
        requires
            self.wf(),
        ensures
            r == self.spec_ids().len(),
    {
        self.execs.len()
    }
}

/// For each first char of the rest, the actions of a subset to try, in order.
#[derive(Clone, Debug)]
pub struct HeadMap {
    /// The lists for the known chars.
    known_map: Vec<(char, RuntimeActions)>,
    /// The list for all other chars.
    unknown_fallback: RuntimeActions,
}

/// Whether the head matcher `head` lets an action be tried on a rest that
/// starts with `c`.
pub fn head_accepts_exec(head: &Option<HeadMatcher>, c: char, known: bool) -> (r: bool)
    ensures
        r == head_accepts(*head, c, known),
{
    match head {
        None => true,
        Some(HeadMatcher::OneOf(v)) => vec_contains_char(v, c),
        Some(HeadMatcher::Not(v)) => !vec_contains_char(v, c),
        Some(HeadMatcher::Unknown) => !known,
    }
}

impl HeadMap {
    /// Whether this map holds, for the actions `ids` of `actions`, the list
    /// the actions to try for each first char.
    pub closed spec fn wf(&self, actions: Seq<Action>, ids: Seq<usize>) -> bool {
        &&& forall|j: int|
            0 <= j < self.known_map@.len() ==> #[trigger] self.known_map@[j].1.holds(
                actions,
                select(actions, ids, ActionFilter::Head(self.known_map@[j].0, true)),
            )
        &&& forall|j: int| 0 <= j < self.known_map@.len() ==> known_char(actions, #[trigger] self.known_map@[j].0)
        &&& forall|c: char| known_char(actions, c) ==> exists|j: int|
            0 <= j < self.known_map@.len() && #[trigger] self.known_map@[j].0 == c
        &&& self.unknown_fallback.holds(actions, select(actions, ids, ActionFilter::Fallback))
    }

    /// Build the map for the actions `ids` of `actions`; `known_chars` lists
    /// the chars that the head matchers of `actions` list.
    pub fn new(actions: &Vec<Action>, ids: &Vec<usize>, known_chars: &Vec<char>) -> (r: Self)
        requires
            valid_ids(ids@, actions@.len()),
            forall|c: char| known_chars@.contains(c) <==> known_char(actions@, c),
        ensures
            r.wf(actions@, ids@),
    {
        let mut known_map: Vec<(char, RuntimeActions)> = Vec::new();
        let mut k: usize = 0;
        while k < known_chars.len()
            invariant
                k <= known_chars@.len(),
                valid_ids(ids@, actions@.len()),
                forall|c: char| known_chars@.contains(c) <==> known_char(actions@, c),
                known_map@.len() == k,
                forall|j: int|
                    0 <= j < k ==> #[trigger] known_map@[j].1.holds(
                        actions@,
                        select(actions@, ids@, ActionFilter::Head(known_map@[j].0, true)),
                    ),
                forall|j: int| 0 <= j < k ==> #[trigger] known_map@[j].0 == known_chars@[j],
            decreases known_chars@.len() - k,
        {
            let c = known_chars[k];
            let list = Self::collect(actions, ids, &ExecFilter::Head(c, true));
            known_map.push((c, list));
            k = k + 1;
        }
        let unknown_fallback = Self::collect(actions, ids, &ExecFilter::Fallback);
        let r = HeadMap { known_map, unknown_fallback };
        proof {
            assert forall|j: int| 0 <= j < r.known_map@.len() implies known_char(
                actions@,
                #[trigger] r.known_map@[j].0,
            ) by {
                assert(known_chars@.contains(known_chars@[j]));
            }
            assert forall|c: char| known_char(actions@, c) implies exists|j: int|
                0 <= j < r.known_map@.len() && #[trigger] r.known_map@[j].0 == c by {
                assert(known_chars@.contains(c));
                let j = choose|j: int| 0 <= j < known_chars@.len() && known_chars@[j] == c;
                assert(r.known_map@[j].0 == c);
            }
        }
        r
    }

    /// The actions `ids` of `actions` that the filter `f` keeps, with their muted flags.
    fn collect(actions: &Vec<Action>, ids: &Vec<usize>, f: &ExecFilter) -> (r: RuntimeActions)
        requires
            valid_ids(ids@, actions@.len()),
        ensures
            r.holds(actions@, select(actions@, ids@, f.view())),
    {
        let mut r = RuntimeActions::new();
        let mut j: usize = 0;
        while j < ids.len()
            invariant
                j <= ids@.len(),
                valid_ids(ids@, actions@.len()),
                r.holds(actions@, select(actions@, ids@.take(j as int), f.view())),
            decreases ids@.len() - j,
        {
            let i = ids[j];
            let a = &actions[i];
            proof {
                assert(ids@.take(j + 1).drop_last() == ids@.take(j as int));
                assert(ids@.take(j + 1).last() == i);
            }
            if keeps_exec(f, a) {
                r.push(i, a.muted);
            }
            j = j + 1;
        }
        assert(ids@.take(ids@.len() as int) == ids@);
        r
    }

    /// The actions to try, in order, on a rest that starts with `next`.
    pub fn get(&self, next: char) -> (r: &RuntimeActions)
        ensures
            forall|actions: Seq<Action>, ids: Seq<usize>|
                self.wf(actions, ids) && valid_ids(ids, actions.len()) ==> r.holds(
                    actions,
                    select(actions, ids, ActionFilter::Head(next, known_char(actions, next))),
                ),
    {
        let mut j: usize = 0;
        while j < self.known_map.len()
            invariant
                j <= self.known_map@.len(),
                forall|l: int| 0 <= l < j ==> #[trigger] self.known_map@[l].0 != next,
            decreases self.known_map@.len() - j,
        {
            if self.known_map[j].0 == next {
                let r = &self.known_map[j].1;
                proof {
                    assert forall|actions: Seq<Action>, ids: Seq<usize>|
                        self.wf(actions, ids) && valid_ids(ids, actions.len()) implies r.holds(
                        actions,
                        select(actions, ids, ActionFilter::Head(next, known_char(actions, next))),
                    ) by {
                        assert(known_char(actions, self.known_map@[j as int].0));
                    }
                }
                return r;
            }
            j = j + 1;
        }
        let r = &self.unknown_fallback;
        proof {
            assert forall|actions: Seq<Action>, ids: Seq<usize>|
                self.wf(actions, ids) && valid_ids(ids, actions.len()) implies r.holds(
                actions,
                select(actions, ids, ActionFilter::Head(next, known_char(actions, next))),
            ) by {
                if known_char(actions, next) {
                    let l = choose|l: int| 0 <= l < self.known_map@.len() && #[trigger] self.known_map@[l].0 == next;
                    assert(self.known_map@[l].0 != next);
                } else {
                    lemma_select_head_unknown(actions, ids, next);
                }
            }
        }
        r
    }

    /// The chars that the head matchers of `actions` list, each once.
    pub fn collect_all_known(actions: &Vec<Action>) -> (r: Vec<char>)
        ensures
            r@.no_duplicates(),
            forall|c: char| r@.contains(c) <==> known_char(actions@, c),
    {
        let mut all: Vec<char> = Vec::new();
        let mut i: usize = 0;
        while i < actions.len()
            invariant
                i <= actions@.len(),
                forall|c: char| all@.contains(c) <==> known_char(actions@.take(i as int), c),
            decreases actions@.len() - i,
        {
            let ghost before = all@;
            match &actions[i].head {
                Some(HeadMatcher::OneOf(v)) => {
                    let mut w = copy_chars(v);
                    all.append(&mut w);
                },
                Some(HeadMatcher::Not(v)) => {
                    let mut w = copy_chars(v);
                    all.append(&mut w);
                },
                _ => {},
            }
            proof {
                let t = actions@.take(i + 1);
                assert(t.drop_last() == actions@.take(i as int));
                assert forall|c: char| all@.contains(c) <==> known_char(t, c) by {
                    super::lemma_known_char_push(actions@.take(i as int), actions@[i as int], c);
                    assert(t == actions@.take(i as int).push(actions@[i as int]));
                    let named = match actions@[i as int].head {
                        Some(h) => h.named(),
                        None => Seq::empty(),
                    };
                    assert(all@ == before + named);
                    if all@.contains(c) {
                        let j = choose|j: int| 0 <= j < all@.len() && all@[j] == c;
                        if j < before.len() {
                            assert(before[j] == c);
                        } else {
                            assert(named[j - before.len()] == c);
                        }
                    }
                    if before.contains(c) {
                        let j = choose|j: int| 0 <= j < before.len() && before[j] == c;
                        assert(all@[j] == c);
                    }
                    if named.contains(c) {
                        let j = choose|j: int| 0 <= j < named.len() && named[j] == c;
                        assert(all@[before.len() + j] == c);
                    }
                }
            }
            i = i + 1;
        }
        assert(actions@.take(actions@.len() as int) == actions@);
        crate::lexer::action::class::dedup_chars(&all)
    }
}

} // verus!
