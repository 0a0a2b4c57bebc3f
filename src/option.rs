use vstd::prelude::*;

use crate::iterator::{IntoIterator, Iterator};

verus! {

/// Hands out the value it holds, if any, once.
#[derive(Debug)]
struct Item<A> {
    opt: Option<A>,
}

impl<A> Iterator for Item<A> {
    type Item = A;

    closed spec fn len_left(&self) -> nat {
        if self.opt is Some {
            1
        } else {
            0
        }
    }

    closed spec fn item_at(&self, i: int, x: A) -> bool {
        i == 0 && self.opt == Some(x)
    }

    closed spec fn skipped(&self, rest: &Self, k: nat) -> bool {
        &&& k + rest.len_left() == self.len_left()
        &&& rest.len_left() > 0 ==> rest.opt == self.opt
    }

    proof fn lemma_skipped(&self, rest: &Self, k: nat) {
    }

    proof fn lemma_skipped_none(&self) {
    }

    proof fn lemma_skipped_trans(&self, mid: &Self, rest: &Self, j: nat, k: nat) {
    }

    fn next(&mut self) -> (r: Option<A>) {
        let r = self.opt.take();
        assert(old(self).skipped(self, (old(self).len_left() - self.len_left()) as nat));
        r
    }
}

/// The iterator that an `Option` turns into: its value, if any.
pub struct IntoIter<A> {
    inner: Item<A>,
}

impl<A> IntoIter<A> {
    /// The value still to come, if any.
    pub closed spec fn pending(&self) -> Option<A> {
        self.inner.opt
    }
}

impl<A> Iterator for IntoIter<A> {
    type Item = A;

    open spec fn len_left(&self) -> nat {
        if self.pending() is Some {
            1
        } else {
            0
        }
    }

    open spec fn item_at(&self, i: int, x: A) -> bool {
        i == 0 && self.pending() == Some(x)
    }

    open spec fn skipped(&self, rest: &Self, k: nat) -> bool {
        &&& k + rest.len_left() == self.len_left()
        &&& rest.len_left() > 0 ==> rest.pending() == self.pending()
    }

    proof fn lemma_skipped(&self, rest: &Self, k: nat) {
    }

    proof fn lemma_skipped_none(&self) {
    }

    proof fn lemma_skipped_trans(&self, mid: &Self, rest: &Self, j: nat, k: nat) {
    }

    fn next(&mut self) -> (r: Option<A>) {
        let r = self.inner.next();
        proof {
            old(self).inner.lemma_skipped(&self.inner, (old(self).len_left() - self.len_left()) as nat);
            assert(old(self).skipped(self, (old(self).len_left() - self.len_left()) as nat));
        }
        r
    }
}

impl<T> IntoIterator for Option<T> {
    type Item = T;

    type IntoIter = IntoIter<T>;

    open spec fn count_items(&self) -> nat {
        if self is Some {
            1
        } else {
            0
        }
    }

    open spec fn has_item_at(&self, i: int, x: T) -> bool {
        i == 0 && *self == Some(x)
    }

    fn into_iter(self) -> (r: IntoIter<T>) {
        IntoIter { inner: Item { opt: self } }
    }
}

} // verus!
