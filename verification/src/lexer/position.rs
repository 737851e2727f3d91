//! Transform byte offsets of a text into line and character positions.
use crate::text::{
    byte_len, char_index, char_width, is_boundary, lemma_byte_len_push, lemma_byte_len_split,
    lemma_byte_len_take_next, lemma_char_index, lemma_char_width, len_utf8, str_len,
};
use std::ops::Range;
use vstd::prelude::*;
use vstd::std_specs::iter::IteratorSpec;

verus! {

broadcast use vstd::string::group_string_axioms;

/// A position in a text: the line index and the char index in the line.
#[derive(Clone, Copy, Debug, PartialEq, Eq, Structural)]
pub struct Position {
    /// The line index (from `0`).
    pub line: usize,
    /// The char index in the line (from `0`).
    pub character: usize,
}

/// The byte ranges of the lines of `t`: each line ends after its line
/// feed; the last line has none.
pub open spec fn line_ranges_of(t: Seq<char>) -> Seq<(nat, nat)>
    decreases t.len(),
{
    if t.len() == 0 {
        seq![(0nat, 0nat)]
    } else {
        let rs = line_ranges_of(t.drop_last());
        let s = rs.last().0;
        let end = byte_len(t);
        if t.last() == '\n' {
            rs.drop_last().push((s, end)).push((end, end))
        } else {
            rs.drop_last().push((s, end))
        }
    }
}

/// The byte ranges, as pairs.
pub open spec fn ranges_view(v: Seq<Range<usize>>) -> Seq<(nat, nat)> {
    v.map_values(|r: Range<usize>| (r.start as nat, r.end as nat))
}

/// The ranges of the lines are contiguous, start at `0`, end at the end of
/// the text, and start and end on char boundaries.
pub open spec fn ranges_ok(t: Seq<char>, rs: Seq<(nat, nat)>) -> bool {
    &&& rs.len() > 0
    &&& rs[0].0 == 0
    &&& rs.last().1 == byte_len(t)
    &&& forall|i: int| 0 <= i < rs.len() ==> #[trigger] rs[i].0 <= rs[i].1
    &&& forall|i: int| 0 <= i < rs.len() - 1 ==> #[trigger] rs[i].1 == rs[i + 1].0
    &&& forall|i: int| 0 <= i < rs.len() ==> is_boundary(t, #[trigger] rs[i].0 as int)
}

/// The ranges of the lines of a text are contiguous and on char boundaries.
pub proof fn lemma_line_ranges_ok(t: Seq<char>)
    ensures
        ranges_ok(t, line_ranges_of(t)),
    decreases t.len(),
{
    if t.len() == 0 {
        assert(t.take(0) == Seq::<char>::empty());
        assert(is_boundary(t, byte_len(t.take(0)) as int));
    } else {
        let p = t.drop_last();
        lemma_line_ranges_ok(p);
        let rs = line_ranges_of(p);
        let n = t.len() - 1;
        assert(p == t.take(n));
        lemma_byte_len_take_next(t, n);
        lemma_char_width(t[n]);
        assert(t.take(n + 1) == t);
        assert forall|i: int| 0 <= i < rs.len() implies is_boundary(t, #[trigger] rs[i].0 as int) by {
            assert(is_boundary(p, rs[i].0 as int));
            let k = choose|k: int| 0 <= k <= p.len() && rs[i].0 == byte_len(#[trigger] p.take(k));
            assert(p.take(k) == t.take(k));
        }
        assert(is_boundary(t, byte_len(t.take(t.len() as int)) as int));
        let r2 = line_ranges_of(t);
        if t.last() == '\n' {
            assert forall|i: int| 0 <= i < r2.len() implies is_boundary(t, #[trigger] r2[i].0 as int) by {
                if i < rs.len() {
                    assert(r2[i].0 == rs[i].0);
                }
            }
        } else {
            assert forall|i: int| 0 <= i < r2.len() implies is_boundary(t, #[trigger] r2[i].0 as int) by {
                assert(r2[i].0 == rs[i].0);
            }
        }
    }
}

/// The lines of `t` as char index ranges, built as [`line_ranges_of`]
/// builds the byte ranges.
pub open spec fn line_char_ranges(t: Seq<char>) -> Seq<(nat, nat)>
    decreases t.len(),
{
    if t.len() == 0 {
        seq![(0nat, 0nat)]
    } else {
        let rs = line_char_ranges(t.drop_last());
        let s = rs.last().0;
        let end = t.len();
        if t.last() == '\n' {
            rs.drop_last().push((s, end)).push((end, end))
        } else {
            rs.drop_last().push((s, end))
        }
    }
}

/// Whether line `i` of the char ranges `cr` of `t` holds no line feed but,
/// unless it is the last line, the one it ends with; the last line ends at
/// the end of the text.
pub open spec fn line_ok(t: Seq<char>, cr: Seq<(nat, nat)>, i: int) -> bool {
    let (ks, ke) = cr[i];
    let last = i == cr.len() - 1;
    &&& ks <= ke <= t.len()
    &&& !last ==> ks < ke && t[ke - 1] == '\n'
    &&& last ==> ke == t.len()
    &&& forall|j: int| ks <= j < (if last { ke as int } else { ke - 1 }) ==> #[trigger] t[j] != '\n'
}

/// The lines of a text: line `i` runs over the chars of the char range
/// `line_char_ranges(t)[i]`, whose byte range is `line_ranges_of(t)[i]`;
/// each line but the last ends right after a line feed, the only one it
/// holds; the last line holds none and ends at the end of the text.
pub proof fn law_lines_end_at_line_feeds(t: Seq<char>)
    ensures
        line_char_ranges(t).len() == line_ranges_of(t).len(),
        forall|i: int|
            0 <= i < line_ranges_of(t).len() ==> #[trigger] line_ranges_of(t)[i] == (
                byte_len(t.take(line_char_ranges(t)[i].0 as int)),
                byte_len(t.take(line_char_ranges(t)[i].1 as int)),
            ) && line_ok(t, line_char_ranges(t), i),
    decreases t.len(),
{
    if t.len() == 0 {
        assert(t.take(0) == Seq::<char>::empty());
        crate::text::lemma_byte_len_empty();
    } else {
        law_lines_end_at_line_feeds(t.drop_last());
        let rs = line_ranges_of(t);
        assert forall|i: int| 0 <= i < rs.len() implies #[trigger] rs[i] == (
            byte_len(t.take(line_char_ranges(t)[i].0 as int)),
            byte_len(t.take(line_char_ranges(t)[i].1 as int)),
        ) && line_ok(t, line_char_ranges(t), i) by {
            lemma_line_step(t, i);
        }
    }
}

/// One more char keeps the lines before the last, and ends the last one
/// there: after it, if it is a line feed, an empty last line starts.
#[verifier::rlimit(40)]
proof fn lemma_line_step(t: Seq<char>, i: int)
    requires
        t.len() > 0,
        0 <= i < line_ranges_of(t).len(),
        line_char_ranges(t.drop_last()).len() == line_ranges_of(t.drop_last()).len(),
        forall|x: int|
            0 <= x < line_ranges_of(t.drop_last()).len() ==> #[trigger] line_ranges_of(t.drop_last())[x] == (
                byte_len(t.drop_last().take(line_char_ranges(t.drop_last())[x].0 as int)),
                byte_len(t.drop_last().take(line_char_ranges(t.drop_last())[x].1 as int)),
            ) && line_ok(t.drop_last(), line_char_ranges(t.drop_last()), x),
    ensures
        line_char_ranges(t).len() == line_ranges_of(t).len(),
        line_ranges_of(t)[i] == (
            byte_len(t.take(line_char_ranges(t)[i].0 as int)),
            byte_len(t.take(line_char_ranges(t)[i].1 as int)),
        ),
        line_ok(t, line_char_ranges(t), i),
{
    let rs = line_ranges_of(t);
    let cr = line_char_ranges(t);
    let p = t.drop_last();
    let n = p.len();
    let rp = line_ranges_of(p);
    let cp = line_char_ranges(p);
    let il = rp.len() - 1;
    assert(rp.len() > 0) by {
        lemma_line_ranges_ok(p);
    }
    assert(t.take(t.len() as int) =~= t);
    if i < il {
        assert(rp[i] == rp[i]);
        let (a, b) = cp[i];
        assert(t.take(a as int) =~= p.take(a as int));
        assert(t.take(b as int) =~= p.take(b as int));
        assert(rs[i] == rp[i]);
        assert(cr[i] == cp[i]);
        assert forall|j: int| a <= j < b - 1 implies #[trigger] t[j] != '\n' by {
            assert(t[j] == p[j]);
            assert(p[j] != '\n');
        }
    } else {
        assert(rp[il] == rp[il]);
        let (ksl, kel) = cp[il];
        assert(t.take(ksl as int) =~= p.take(ksl as int));
        if i == il {
            if t.last() == '\n' {
                assert forall|j: int| ksl <= j < t.len() - 1 implies #[trigger] t[j] != '\n' by {
                    assert(t[j] == p[j]);
                    assert(p[j] != '\n');
                }
            } else {
                assert forall|j: int| ksl <= j < t.len() implies #[trigger] t[j] != '\n' by {
                    if j < n {
                        assert(t[j] == p[j]);
                        assert(p[j] != '\n');
                    }
                }
            }
        }
    }
}

/// The number of line feeds in `t`.
pub open spec fn line_feeds(t: Seq<char>) -> nat
    decreases t.len(),
{
    if t.len() == 0 {
        0
    } else {
        line_feeds(t.drop_last()) + if t.last() == '\n' {
            1nat
        } else {
            0nat
        }
    }
}

/// A text has one more line than line feeds.
pub proof fn lemma_line_count(t: Seq<char>)
    ensures
        line_ranges_of(t).len() == line_feeds(t) + 1,
    decreases t.len(),
{
    if t.len() > 0 {
        lemma_line_count(t.drop_last());
    }
}

/// The char at char index `k` of `t` lies in the line whose index is the
/// number of line feeds before it.
pub proof fn lemma_line_of_char(t: Seq<char>, k: int)
    requires
        0 <= k < t.len(),
    ensures
        ({
            let rs = line_ranges_of(t);
            let l = line_feeds(t.take(k)) as int;
            &&& l < rs.len()
            &&& rs[l].0 <= byte_len(t.take(k)) < rs[l].1
        }),
    decreases t.len(),
{
    let p = t.drop_last();
    let n = t.len() - 1;
    let rs = line_ranges_of(p);
    lemma_line_ranges_ok(p);
    lemma_line_count(p);
    assert(p == t.take(n));
    lemma_byte_len_take_next(t, n);
    lemma_char_width(t[n]);
    assert(t.take(n + 1) == t);
    if k < n {
        lemma_line_of_char(p, k);
        assert(p.take(k) == t.take(k));
        let l = line_feeds(t.take(k)) as int;
        crate::text::lemma_byte_len_take_mono(p, k + 1, n);
        lemma_byte_len_take_next(p, k);
        lemma_char_width(p[k]);
        assert(p.take(n) == p);
    } else {
        assert(t.take(k) == p);
    }
}

/// In contiguous ranges, a range before another ends before it starts.
pub proof fn lemma_ranges_sorted(rs: Seq<(nat, nat)>, i: int, j: int)
    requires
        forall|m: int| 0 <= m < rs.len() ==> #[trigger] rs[m].0 <= rs[m].1,
        forall|m: int| 0 <= m < rs.len() - 1 ==> #[trigger] rs[m].1 == rs[m + 1].0,
        0 <= i < j < rs.len(),
    ensures
        rs[i].1 <= rs[j].0,
    decreases j - i,
{
    if j > i + 1 {
        lemma_ranges_sorted(rs, i, j - 1);
        assert(rs[j - 1].1 == rs[j].0);
    } else {
        assert(rs[i].1 == rs[i + 1].0);
    }
}

/// Transforms byte offsets of a text (fed in pieces) into positions.
pub struct PositionTransformer {
    line_ranges: Vec<Range<usize>>,
    text: Ghost<Seq<char>>,
}

impl PositionTransformer {
    /// The text fed so far.
    pub closed spec fn spec_text(&self) -> Seq<char> {
        self.text@
    }

    /// The byte ranges of the lines.
    pub closed spec fn spec_ranges(&self) -> Seq<(nat, nat)> {
        ranges_view(self.line_ranges@)
    }

    /// The line ranges are those of the text fed so far.
    pub closed spec fn wf(&self) -> bool {
        ranges_view(self.line_ranges@) == line_ranges_of(self.text@)
    }

    /// A transformer of an empty text: one empty line.
    pub fn default() -> (r: Self)
        ensures
            r.wf(),
            r.spec_ranges() == line_ranges_of(r.spec_text()),
            r.spec_text() == Seq::<char>::empty(),
    {
        let mut line_ranges: Vec<Range<usize>> = Vec::new();
        line_ranges.push(0..0);
        let r = PositionTransformer { line_ranges, text: Ghost(Seq::empty()) };
        assert(ranges_view(r.line_ranges@) =~= seq![(0nat, 0nat)]);
        r
    }

    /// A transformer of `string`.
    pub fn new(string: &str) -> (r: Self)
        ensures
            r.wf(),
            r.spec_ranges() == line_ranges_of(r.spec_text()),
            r.spec_text() == string@,
    {
        let mut t = PositionTransformer::default();
        proof {
            crate::text::lemma_byte_len_empty();
        }
        let n = str_len(string);
        t.update(string);
        assert(Seq::<char>::empty() + string@ == string@);
        t
    }

    /// A well-formed transformer holds the line ranges of its text.
    pub proof fn lemma_wf_ranges(&self)
        requires
            self.wf(),
        ensures
            self.spec_ranges() == line_ranges_of(self.spec_text()),
            ranges_ok(self.spec_text(), self.spec_ranges()),
    {
        lemma_line_ranges_ok(self.spec_text());
    }

    /// The byte ranges of the lines.
    pub fn line_ranges(&self) -> (r: &Vec<Range<usize>>)
        ensures
            ranges_view(r@) == self.spec_ranges(),
    {
        &self.line_ranges
    }

    /// Feed more text.
    pub fn update(&mut self, append: &str)
        requires
            old(self).wf(),
            byte_len(old(self).spec_text()) + byte_len(append@) <= usize::MAX,
        ensures
            final(self).wf(),
            final(self).spec_text() == old(self).spec_text() + append@,
            final(self).spec_ranges() == line_ranges_of(final(self).spec_text()),
    {
        let ghost t0 = self.text@;
        proof {
            lemma_line_ranges_ok(t0);
        }
        let mut done: Vec<Range<usize>> = Vec::new();
        std::mem::swap(&mut done, &mut self.line_ranges);
        let ghost rs0 = done@;
        let last = done.pop();
        let mut cur = match last {
            Some(r) => r,
            None => 0..0,
        };
        assert(ranges_view(done@) == line_ranges_of(t0).drop_last()) by {
            assert(ranges_view(done@) =~= ranges_view(rs0).drop_last());
        }
        let start = cur.end;
        let mut it = append.chars();
        let mut i: usize = 0;
        let ghost mut j: int = 0;
        let total = str_len(append);
        assert(append@.take(0) == Seq::<char>::empty());
        assert(t0 + append@.take(0) == t0);
        assert(append@.skip(0) == append@);
        loop
            invariant
                0 <= j <= append@.len(),
                it.remaining() == append@.skip(j),
                i == byte_len(append@.take(j)),
                total == byte_len(append@),
                start == byte_len(t0),
                byte_len(t0) + byte_len(append@) <= usize::MAX,
                ranges_view(done@).push((cur.start as nat, (start + i) as nat)) == line_ranges_of(
                    t0 + append@.take(j),
                ),
            ensures
                j == append@.len(),
            decreases append@.len() - j,
        {
            proof {
                lemma_byte_len_split(append@, j);
            }
            match it.next() {
                None => {
                    assert(append@.skip(j).len() == 0);
                    break;
                },
                Some(c) => {
                    assert(c == append@[j]);
                    let ghost tj = t0 + append@.take(j);
                    let ghost tn = t0 + append@.take(j + 1);
                    proof {
                        lemma_byte_len_take_next(append@, j);
                        lemma_byte_len_split(append@, j + 1);
                        assert(append@.take(j + 1) == append@.take(j).push(c));
                        assert(tn == tj.push(c));
                        assert(tn.drop_last() == tj);
                        crate::text::lemma_byte_len_add(t0, append@.take(j + 1));
                        crate::text::lemma_byte_len_add(t0, append@.take(j));
                        lemma_char_width(c);
                    }
                    let w = len_utf8(c);
                    let ghost rs = line_ranges_of(tj);
                    proof {
                        assert(rs.drop_last() == ranges_view(done@));
                        assert(rs.last().0 == cur.start);
                        assert(tn.last() == c);
                    }
                    if c == '\n' {
                        let next = start + i + 1;
                        let ghost before = done@;
                        done.push(cur.start..next);
                        proof {
                            assert(ranges_view(done@) =~= ranges_view(before).push((cur.start as nat, next as nat)));
                        }
                        cur = next..next;
                    }
                    i = i + w;
                    proof {
                        j = j + 1;
                    }
                },
            }
        }
        cur.end = start + total;
        let ghost before = done@;
        done.push(cur);
        proof {
            assert(append@.take(append@.len() as int) == append@);
            assert(ranges_view(done@) =~= ranges_view(before).push((cur.start as nat, cur.end as nat)));
        }
        self.line_ranges = done;
        self.text = Ghost(t0 + append@);
    }

    /// The index of the line whose byte range holds `index`, if any.
    pub fn line_index_at(&self, index: usize) -> (r: Option<usize>)
        requires
            self.wf(),
        ensures
            r matches Some(l) ==> l < self.spec_ranges().len() && self.spec_ranges()[l as int].0 <= index
                < self.spec_ranges()[l as int].1,
            r is None ==> forall|l: int|
                0 <= l < self.spec_ranges().len() ==> !(#[trigger] self.spec_ranges()[l].0 <= index
                    < self.spec_ranges()[l].1),
    {
        let ghost rs = self.spec_ranges();
        proof {
            lemma_line_ranges_ok(self.text@);
        }
        let mut lo: usize = 0;
        let mut hi: usize = self.line_ranges.len();
        while lo < hi
            invariant
                rs == self.spec_ranges(),
                rs.len() == self.line_ranges@.len(),
                forall|m: int| 0 <= m < rs.len() ==> #[trigger] rs[m].0 <= rs[m].1,
                forall|m: int| 0 <= m < rs.len() - 1 ==> #[trigger] rs[m].1 == rs[m + 1].0,
                lo <= hi <= rs.len(),
                forall|l: int| 0 <= l < lo ==> #[trigger] rs[l].1 <= index,
                forall|l: int| hi <= l < rs.len() ==> index < #[trigger] rs[l].0,
            decreases hi - lo,
        {
            let mid = lo + (hi - lo) / 2;
            let start = self.line_ranges[mid].start;
            let end = self.line_ranges[mid].end;
            assert(rs[mid as int] == (start as nat, end as nat));
            if index < start {
                proof {
                    assert forall|l: int| mid <= l < rs.len() implies index < #[trigger] rs[l].0 by {
                        assert(rs[mid as int].0 <= rs[mid as int].1);
                        if l > mid {
                            lemma_ranges_sorted(rs, mid as int, l);
                        }
                    }
                }
                hi = mid;
            } else if index >= end {
                proof {
                    assert forall|l: int| 0 <= l < mid + 1 implies #[trigger] rs[l].1 <= index by {
                        if l < mid {
                            lemma_ranges_sorted(rs, l, mid as int);
                        }
                    }
                }
                lo = mid + 1;
            } else {
                return Some(mid);
            }
        }
        proof {
            assert forall|l: int| 0 <= l < rs.len() implies !(#[trigger] rs[l].0 <= index < rs[l].1) by {
                if l < lo {
                } else {
                    assert(index < rs[l].0);
                }
            }
        }
        None
    }

    /// The position of byte offset `index` of `text` (the text fed so far):
    /// `None` at or after its end.
    pub fn transform(&self, index: usize, text: &str) -> (r: Option<Position>)
        requires
            self.wf(),
            text@ == self.spec_text(),
            index >= byte_len(text@) || is_boundary(text@, index as int),
        ensures
            index >= byte_len(text@) ==> r is None,
            index < byte_len(text@) ==> (r matches Some(p) && {
                let rs = self.spec_ranges();
                &&& p.line == line_feeds(text@.take(char_index(text@, index as int)))
                &&& p.line < rs.len()
                &&& rs[p.line as int].0 <= index < rs[p.line as int].1
                &&& p.character == char_index(text@, index as int) - char_index(
                    text@,
                    rs[p.line as int].0 as int,
                )
            }),
    {
        let ghost rs = self.spec_ranges();
        proof {
            lemma_line_ranges_ok(self.text@);
        }
        let n = self.line_ranges.len();
        let last_end = self.line_ranges[n - 1].end;
        assert(rs[n - 1] == (self.line_ranges@[n - 1].start as nat, last_end as nat));
        if index >= last_end {
            return None;
        }
        proof {
            lemma_ranges_cover(rs, index as nat);
        }
        match self.line_index_at(index) {
            None => {
                assert(false);
                None
            },
            Some(l) => {
                let start = self.line_ranges[l].start;
                assert(rs[l as int].0 == start);
                proof {
                    let t = text@;
                    let ci = char_index(t, index as int);
                    lemma_char_index(t, ci);
                    assert(t.take(t.len() as int) == t);
                    lemma_line_of_char(t, ci);
                    let l2 = line_feeds(t.take(ci)) as int;
                    if l2 < l {
                        lemma_ranges_sorted(rs, l2, l as int);
                    } else if l2 > l {
                        lemma_ranges_sorted(rs, l as int, l2);
                    }
                }
                let a = char_count_to(text, index);
                let b = char_count_to(text, start);
                proof {
                    lemma_char_index(text@, char_index(text@, index as int));
                    lemma_char_index(text@, char_index(text@, start as int));
                    if a < b {
                        crate::text::lemma_byte_len_take_mono(text@, a as int, b as int);
                    }
                }
                Some(Position { line: l, character: a - b })
            },
        }
    }
}

/// Contiguous ranges from `0` cover every offset before the end of the last one.
pub proof fn lemma_ranges_cover(rs: Seq<(nat, nat)>, index: nat)
    requires
        rs.len() > 0,
        rs[0].0 == 0,
        forall|m: int| 0 <= m < rs.len() ==> #[trigger] rs[m].0 <= rs[m].1,
        forall|m: int| 0 <= m < rs.len() - 1 ==> #[trigger] rs[m].1 == rs[m + 1].0,
        index < rs.last().1,
    ensures
        exists|l: int| 0 <= l < rs.len() && #[trigger] rs[l].0 <= index < rs[l].1,
    decreases rs.len(),
{
    let n = rs.len() - 1;
    if index >= rs[n].0 {
        assert(rs[n].0 <= index < rs[n].1);
    } else {
        assert(rs[n - 1].1 == rs[n].0);
        let p = rs.drop_last();
        assert forall|m: int| 0 <= m < p.len() implies #[trigger] p[m].0 <= p[m].1 by {
            assert(p[m] == rs[m]);
        }
        assert forall|m: int| 0 <= m < p.len() - 1 implies #[trigger] p[m].1 == p[m + 1].0 by {
            assert(p[m] == rs[m]);
            assert(p[m + 1] == rs[m + 1]);
        }
        lemma_ranges_cover(p, index);
        let l = choose|l: int| 0 <= l < p.len() && #[trigger] p[l].0 <= index < p[l].1;
        assert(rs[l] == p[l]);
    }
}

/// The number of chars of `s` before byte offset `n`.
pub fn char_count_to(s: &str, n: usize) -> (r: usize)
    requires
        is_boundary(s@, n as int),
    ensures
        r == char_index(s@, n as int),
{
    let ghost k = char_index(s@, n as int);
    proof {
        lemma_char_index(s@, k);
    }
    let mut it = s.chars();
    let mut bytes: usize = 0;
    let mut count: usize = 0;
    assert(s@.skip(0) == s@);
    assert(s@.take(0) == Seq::<char>::empty());
    while bytes < n
        invariant
            0 <= count <= k <= s@.len(),
            n == byte_len(s@.take(k)),
            it.remaining() == s@.skip(count as int),
            bytes == byte_len(s@.take(count as int)),
            count <= bytes,
            k == char_index(s@, n as int),
        decreases k - count,
    {
        proof {
            if count == k {
                assert(bytes == n);
            }
            assert(count < k);
            crate::text::lemma_byte_len_take_mono(s@, count as int + 1, k);
            lemma_byte_len_take_next(s@, count as int);
        }
        match it.next() {
            Some(c) => {
                assert(c == s@[count as int]);
                proof {
                    lemma_char_width(c);
                }
                bytes = bytes + len_utf8(c);
                count = count + 1;
            },
            None => {
                assert(false);
            },
        }
    }
    proof {
        if count < k {
            crate::text::lemma_byte_len_take_mono(s@, count as int, k);
        }
    }
    count
}

} // verus!
