use vstd::prelude::*;

use crate::iterator::Iterator;

verus! {

/// Walks a mutable slice from both ends, handing out a mutable reference to each element
/// once. Elements of size zero are walked like any others: the position is an index range,
/// not an address.
pub struct IterMut<'a, T> {
    rest: &'a mut [T],
}

impl<'a, T> View for IterMut<'a, T> {
    type V = Seq<T>;

    /// The values of the elements not yet handed out, front to back.
    closed spec fn view(&self) -> Seq<T> {
        self.rest@
    }
}

impl<'a, T> IterMut<'a, T> {
    /// An iterator over all elements of `slice`, front to back.
    pub fn new(slice: &'a mut [T]) -> (r: Self)
        ensures
            r@ == old(slice)@,
    {
        IterMut { rest: slice }
    }

    /// Takes the remaining slice out of `self`, leaving it empty.
    fn take_rest(&mut self) -> (r: &'a mut [T])
        ensures
            r@ == old(self)@,
            final(self)@ == Seq::<T>::empty(),
    {
        let mut rest: &'a mut [T] = &mut [];
        core::mem::swap(&mut rest, &mut self.rest);
        rest
    }

    /// Hands out the last element left, or nothing once none is left.
    pub fn next_back(&mut self) -> (r: Option<&'a mut T>)
        ensures
            old(self)@.len() == 0 ==> r is None && final(self)@ == old(self)@,
            old(self)@.len() > 0 ==> r is Some && *r->0 == old(self)@.last() && final(self)@
                == old(self)@.drop_last(),
    {
        let len = self.rest.len();
        if len == 0 {
            return None;
        }
        let rest = self.take_rest();
        let (front, back) = rest.split_at_mut(len - 1);
        self.rest = front;
        back.first_mut()
    }

    /// The last element left, taken from the back as `next_back` does, or nothing where none
    /// is left.
    pub fn last(&mut self) -> (r: Option<&'a mut T>)
        ensures
            old(self)@.len() == 0 ==> r is None && final(self)@ == old(self)@,
            old(self)@.len() > 0 ==> r is Some && *r->0 == old(self)@.last() && final(self)@
                == old(self)@.drop_last(),
    {
        self.next_back()
    }

    /// How many elements are left.
    pub fn count(self) -> (r: usize)
        ensures
            r == self@.len(),
    {
        self.rest.len()
    }
}

impl<'a, T> Iterator for IterMut<'a, T> {
    type Item = &'a mut T;

    open spec fn len_left(&self) -> nat {
        self@.len()
    }

    open spec fn item_at(&self, i: int, x: &'a mut T) -> bool {
        0 <= i < self@.len() && *x == self@[i]
    }

    open spec fn skipped(&self, rest: &Self, k: nat) -> bool {
        k <= self@.len() && rest@ == self@.subrange(k as int, self@.len() as int)
    }

    proof fn lemma_skipped(&self, rest: &Self, k: nat) {
    }

    proof fn lemma_skipped_none(&self) {
        assert(self@ =~= self@.subrange(0, self@.len() as int));
        assert(self.skipped(self, 0));
    }

    proof fn lemma_skipped_trans(&self, mid: &Self, rest: &Self, j: nat, k: nat) {
        assert(rest@ =~= self@.subrange((j + k) as int, self@.len() as int));
    }

    fn next(&mut self) -> (r: Option<&'a mut T>) {
        if self.rest.len() == 0 {
            proof {
                self.lemma_skipped_none();
            }
            None
        } else {
            let rest = self.take_rest();
            let (front, back) = rest.split_at_mut(1);
            self.rest = back;
            assert(old(self).skipped(self, 1));
            front.first_mut()
        }
    }

    fn size_hint(&self) -> (r: (usize, Option<usize>))
        ensures
            r == (self@.len() as usize, Some(self@.len() as usize)),
            r.0 == self@.len(),
    {
        let exact = self.rest.len();
        (exact, Some(exact))
    }

    fn nth(&mut self, n: usize) -> (r: Option<&'a mut T>) {
        let len = self.rest.len();
        let rest = self.take_rest();
        if n >= len {
            return None;
        }
        let (_, tail) = rest.split_at_mut(n);
        let (front, back) = tail.split_at_mut(1);
        self.rest = back;
        assert(self@ =~= old(self)@.subrange(n + 1, old(self)@.len() as int));
        assert(old(self).skipped(self, (n + 1) as nat));
        front.first_mut()
    }

    fn advance_by(&mut self, n: usize) -> (r: Result<(), usize>) {
        let len = self.rest.len();
        let advance = if n < len {
            n
        } else {
            len
        };
        let rest = self.take_rest();
        let (_, tail) = rest.split_at_mut(advance);
        self.rest = tail;
        if advance == n {
            Ok(())
        } else {
            Err(advance)
        }
    }
}

/// Once `k` of the `L` elements are handed out, the pair that `size_hint` reports is
/// `(L - k, Some(L - k))`, with no truncation.
pub proof fn lemma_hint_after_prefix<'a, T>(before: IterMut<'a, T>, after: IterMut<'a, T>, k: nat)
    requires
        before@.len() <= usize::MAX,
        before.skipped(&after, k),
    ensures
        (after@.len() as usize, Some(after@.len() as usize)) == (
            (before@.len() - k) as usize,
            Some((before@.len() - k) as usize),
        ),
        (after@.len() as usize) as int == before@.len() - k,
{
}

/// Elements of size zero are walked by position like any others: of `L` such elements, `k`
/// handed out leave `L - k`, so `next` hands out an element exactly `L` times.
pub proof fn lemma_zero_sized_walk<'a>(before: IterMut<'a, ()>, after: IterMut<'a, ()>, k: nat)
    requires
        before.skipped(&after, k),
    ensures
        after.len_left() == before@.len() - k,
        after.len_left() > 0 <==> k < before@.len(),
{
}

} // verus!
