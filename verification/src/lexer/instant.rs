//! The instantaneous state of a lexer.
use crate::text::{byte_len, char_index, chars_after, is_boundary, lemma_byte_len_split, str_after, str_len};
use vstd::prelude::*;

verus! {

/// The instantaneous state of a lexer: the text, how many bytes of it are
/// digested, and whether the rest is trimmed.
#[derive(Debug, Clone, Copy, PartialEq, Eq)]
pub struct Instant<'text> {
    text: &'text str,
    digested: usize,
    trimmed: bool,
}

impl<'text> Instant<'text> {
    /// The chars of the whole text.
    pub closed spec fn spec_text(&self) -> &'text str {
        self.text
    }

    /// How many bytes are digested.
    pub closed spec fn spec_digested(&self) -> nat {
        self.digested as nat
    }

    /// Whether the rest is trimmed.
    pub closed spec fn spec_trimmed(&self) -> bool {
        self.trimmed
    }

    #[verifier::type_invariant]
    spec fn inv(&self) -> bool {
        is_boundary(self.text@, self.digested as int)
    }

    /// Create a new instance: nothing digested, trimmed iff the text is empty.
    pub fn new(text: &'text str) -> (r: Self)
        ensures
            r.spec_text() == text,
            r.spec_digested() == 0,
            r.spec_trimmed() == (text@.len() == 0),
    {
        proof {
            assert(text@.take(0) == Seq::<char>::empty());
            assert(byte_len(text@.take(0)) == 0);
        }
        Instant { text, digested: 0, trimmed: text.is_empty() }
    }

    /// The whole input text.
    pub fn text(&self) -> (r: &'text str)
        ensures
            r == self.spec_text(),
    {
        self.text
    }

    /// How many bytes are already digested.
    pub fn digested(&self) -> (r: usize)
        ensures
            r == self.spec_digested(),
            is_boundary(self.spec_text()@, r as int),
            r <= byte_len(self.spec_text()@),
    {
        proof {
            use_type_invariant(self);
            let k = char_index(self.text@, self.digested as int);
            lemma_byte_len_split(self.text@, k);
        }
        self.digested
    }

    /// Whether the rest of the text is already trimmed.
    pub fn trimmed(&self) -> (r: bool)
        ensures
            r == self.spec_trimmed(),
    {
        self.trimmed
    }

    /// The undigested text.
    pub fn rest(&self) -> (r: &'text str)
        ensures
            r@ == chars_after(self.spec_text()@, self.spec_digested() as int),
    {
        proof {
            use_type_invariant(self);
        }
        str_after(self.text, self.digested)
    }

    /// Digest `n` bytes. `0` leaves the trimmed flag as it is; otherwise
    /// the rest is trimmed iff the whole text is digested.
    pub fn digest(&mut self, n: usize)
        requires
            is_boundary(old(self).spec_text()@, old(self).spec_digested() + n),
        ensures
            final(self).spec_text() == old(self).spec_text(),
            final(self).spec_digested() == old(self).spec_digested() + n,
            final(self).spec_trimmed() == if n == 0 {
                old(self).spec_trimmed()
            } else {
                old(self).spec_digested() + n == byte_len(old(self).spec_text()@)
            },
    {
        if n == 0 {
            return ;
        }
        proof {
            let k = char_index(self.text@, self.digested + n);
            lemma_byte_len_split(self.text@, k);
        }
        let len = str_len(self.text);
        let d = self.digested + n;
        self.digested = d;
        self.trimmed = d == len;
    }

    /// Digest `n` bytes and mark the rest as trimmed.
    pub fn trim(&mut self, n: usize)
        requires
            is_boundary(old(self).spec_text()@, old(self).spec_digested() + n),
        ensures
            final(self).spec_text() == old(self).spec_text(),
            final(self).spec_digested() == old(self).spec_digested() + n,
            final(self).spec_trimmed(),
    {
        proof {
            let k = char_index(self.text@, self.digested + n);
            lemma_byte_len_split(self.text@, k);
        }
        let len = str_len(self.text);
        let d = self.digested + n;
        self.digested = d;
        self.trimmed = true;
    }
}

} // verus!
