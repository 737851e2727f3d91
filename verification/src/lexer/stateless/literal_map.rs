//! Literal maps: for each known literal, the head map of the actions that
//! may emit it (and the muted ones); and the head map of the muted actions.
use super::head_map::HeadMap;
use super::{known_literal, select, select_exec, str_eq, valid_ids, ActionFilter, ExecFilter};
use crate::lexer::action::Action;
use vstd::prelude::*;

verus! {

/// For each known literal, the head map of the actions of a subset that are
/// muted or have that literal; and the head map of the muted actions.
#[derive(Clone, Debug)]
pub struct LiteralMap {
    known_map: Vec<(String, HeadMap)>,
    muted_map: HeadMap,
}

impl LiteralMap {
    /// Whether this map holds the head maps for the actions `ids` of `actions`.
    pub closed spec fn wf(&self, actions: Seq<Action>, ids: Seq<usize>) -> bool {
        &&& forall|j: int|
            0 <= j < self.known_map@.len() ==> #[trigger] self.known_map@[j].1.wf(
                actions,
                select(actions, ids, ActionFilter::Literal(self.known_map@[j].0@)),
            )
        &&& forall|l: Seq<char>|
            known_literal(actions, l) ==> exists|j: int|
                0 <= j < self.known_map@.len() && #[trigger] self.known_map@[j].0@ == l
        &&& self.muted_map.wf(actions, select(actions, ids, ActionFilter::Muted))
    }

    /// The literals of `actions`, each once.
    pub fn collect_all_known(actions: &Vec<Action>) -> (r: Vec<String>)
        ensures
            forall|l: Seq<char>| known_literal(actions@, l) ==> exists|j: int|
                0 <= j < r@.len() && #[trigger] r@[j]@ == l,
    {
        let mut r: Vec<String> = Vec::new();
        let mut i: usize = 0;
        while i < actions.len()
            invariant
                i <= actions@.len(),
                forall|l: Seq<char>| known_literal(actions@.take(i as int), l) ==> exists|j: int|
                    0 <= j < r@.len() && #[trigger] r@[j]@ == l,
            decreases actions@.len() - i,
        {
            let ghost before = r@;
            match &actions[i].literal {
                Some(l) => {
                    let mut found = false;
                    let mut j: usize = 0;
                    while j < r.len()
                        invariant
                            j <= r@.len(),
                            found ==> exists|m: int| 0 <= m < r@.len() && #[trigger] r@[m]@ == l@,
                        decreases r@.len() - j,
                    {
                        if str_eq(r[j].as_str(), l.as_str()) {
                            found = true;
                        }
                        j = j + 1;
                    }
                    if !found {
                        r.push(l.clone());
                        assert(r@[r@.len() - 1]@ == l@);
                    }
                },
                None => {},
            }
            proof {
                let t = actions@.take(i + 1);
                assert(t.drop_last() == actions@.take(i as int));
                assert forall|l: Seq<char>| known_literal(t, l) implies exists|j: int|
                    0 <= j < r@.len() && #[trigger] r@[j]@ == l by {
                    let k = choose|k: int| 0 <= k < t.len() && (#[trigger] t[k].literal matches Some(s) && s@ == l);
                    if k < i {
                        assert(actions@.take(i as int)[k] == t[k]);
                        assert(known_literal(actions@.take(i as int), l));
                        let j = choose|j: int| 0 <= j < before.len() && #[trigger] before[j]@ == l;
                        assert(r@[j] == before[j]);
                    }
                }
            }
            i = i + 1;
        }
        assert(actions@.take(actions@.len() as int) == actions@);
        r
    }

    /// Build the map for the actions `ids` of `actions`.
    pub fn new(
        actions: &Vec<Action>,
        ids: &Vec<usize>,
        known_literals: &Vec<String>,
        known_chars: &Vec<char>,
    ) -> (r: Self)
        requires
            valid_ids(ids@, actions@.len()),
            forall|l: Seq<char>| known_literal(actions@, l) ==> exists|j: int|
                0 <= j < known_literals@.len() && #[trigger] known_literals@[j]@ == l,
            forall|c: char| known_chars@.contains(c) <==> super::known_char(actions@, c),
        ensures
            r.wf(actions@, ids@),
    {
        let mut known_map: Vec<(String, HeadMap)> = Vec::new();
        let mut k: usize = 0;
        while k < known_literals.len()
            invariant
                k <= known_literals@.len(),
                valid_ids(ids@, actions@.len()),
                forall|c: char| known_chars@.contains(c) <==> super::known_char(actions@, c),
                known_map@.len() == k,
                forall|j: int|
                    0 <= j < k ==> #[trigger] known_map@[j].1.wf(
                        actions@,
                        select(actions@, ids@, ActionFilter::Literal(known_map@[j].0@)),
                    ),
                forall|j: int| 0 <= j < k ==> #[trigger] known_map@[j].0@ == known_literals@[j]@,
            decreases known_literals@.len() - k,
        {
            let l = known_literals[k].clone();
            let sub = select_exec(actions, ids, &ExecFilter::Literal(l.as_str()));
            let hm = HeadMap::new(actions, &sub, known_chars);
            known_map.push((l, hm));
            k = k + 1;
        }
        let muted = select_exec(actions, ids, &ExecFilter::Muted);
        let muted_map = HeadMap::new(actions, &muted, known_chars);
        let r = LiteralMap { known_map, muted_map };
        proof {
            assert forall|l: Seq<char>| known_literal(actions@, l) implies exists|j: int|
                0 <= j < r.known_map@.len() && #[trigger] r.known_map@[j].0@ == l by {
                let j = choose|j: int| 0 <= j < known_literals@.len() && #[trigger] known_literals@[j]@ == l;
                assert(r.known_map@[j].0@ == l);
            }
        }
        r
    }

    /// The head map for the expected literal `literal`.
    pub fn get(&self, literal: &str) -> (r: Option<&HeadMap>)
        ensures
            forall|actions: Seq<Action>, ids: Seq<usize>|
                self.wf(actions, ids) ==> {
                    &&& (known_literal(actions, literal@) ==> r is Some)
                    &&& (r matches Some(hm) ==> hm.wf(
                        actions,
                        select(actions, ids, ActionFilter::Literal(literal@)),
                    ))
                },
    {
        let mut j: usize = 0;
        while j < self.known_map.len()
            invariant
                j <= self.known_map@.len(),
                forall|m: int| 0 <= m < j ==> #[trigger] self.known_map@[m].0@ != literal@,
            decreases self.known_map@.len() - j,
        {
            if str_eq(self.known_map[j].0.as_str(), literal) {
                return Some(&self.known_map[j].1);
            }
            j = j + 1;
        }
        None
    }

    /// The number of known literals.
    pub closed spec fn spec_known_count(&self) -> nat {
        self.known_map@.len()
    }

    /// The number of known literals.
    pub fn known_count(&self) -> (r: usize)
        ensures
            r == self.spec_known_count(),
    {
        self.known_map.len()
    }

    /// Each known literal with the head map of the actions that are muted or
    /// bound to that literal.
    pub fn known_map(&self) -> (r: &Vec<(String, HeadMap)>)
        ensures
            r@.len() == self.spec_known_count(),
            forall|actions: Seq<Action>, ids: Seq<usize>|
                self.wf(actions, ids) ==> {
                    &&& forall|j: int| 0 <= j < r@.len() ==> #[trigger] r@[j].1.wf(
                        actions,
                        select(actions, ids, ActionFilter::Literal(r@[j].0@)),
                    )
                    &&& forall|l: Seq<char>| known_literal(actions, l) ==> exists|j: int|
                        0 <= j < r@.len() && #[trigger] r@[j].0@ == l
                },
    {
        &self.known_map
    }

    /// The head map of the muted actions.
    pub fn muted_map(&self) -> (r: &HeadMap)
        ensures
            forall|actions: Seq<Action>, ids: Seq<usize>|
                self.wf(actions, ids) ==> r.wf(actions, select(actions, ids, ActionFilter::Muted)),
    {
        &self.muted_map
    }
}

} // verus!
