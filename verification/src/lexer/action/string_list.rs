//! A list of strings, built from one string or many.
use vstd::prelude::*;

verus! {

/// A list of strings.
#[derive(Clone, Debug)]
pub struct StringList(pub Vec<String>);

impl From<Vec<String>> for StringList {
    fn from(ss: Vec<String>) -> (r: Self) {
        StringList(ss)
    }
}

impl vstd::std_specs::convert::FromSpecImpl<Vec<String>> for StringList {
    open spec fn obeys_from_spec() -> bool {
        true
    }

    open spec fn from_spec(ss: Vec<String>) -> Self {
        StringList(ss)
    }
}

impl StringList {
    /// The list of the one string `s`.
    pub fn single(s: &str) -> (r: Self)
        ensures
            r.0@.len() == 1,
            r.0@[0]@ == s@,
    {
        let mut v: Vec<String> = Vec::new();
        v.push(s.to_owned());
        StringList(v)
    }

    /// The list of `ss`, in order.
    pub fn from_strs(ss: &Vec<&str>) -> (r: Self)
        ensures
            r.0@.len() == ss@.len(),
            forall|i: int| 0 <= i < ss@.len() ==> #[trigger] r.0@[i]@ == ss@[i]@,
    {
        let mut v: Vec<String> = Vec::new();
        let mut i: usize = 0;
        while i < ss.len()
            invariant
                i <= ss@.len(),
                v@.len() == i,
                forall|j: int| 0 <= j < i ==> #[trigger] v@[j]@ == ss@[j]@,
            decreases ss@.len() - i,
        {
            v.push(ss[i].to_owned());
            i = i + 1;
        }
        StringList(v)
    }
}

} // verus!
