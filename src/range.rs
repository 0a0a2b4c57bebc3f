use vstd::prelude::*;
use vstd::std_specs::cmp::PartialOrdSpec;

use crate::iterator::Iterator;

verus! {

/// A scalar type whose values can be stepped through one at a time: each value stands at a
/// position on the number line, between the type's least and greatest position.
pub trait Step: Copy + PartialOrd + Sized {
    /// The position of the value on the number line.
    spec fn ord(&self) -> int;

    /// The least position a value of the type can take.
    spec fn min_ord() -> int;

    /// The greatest position a value of the type can take.
    spec fn max_ord() -> int;

    /// Positions stay in the type's bounds, tell values apart, and order them as `<` does.
    proof fn lemma_ord(a: &Self, b: &Self)
        ensures
            Self::min_ord() <= a.ord() <= Self::max_ord(),
            Self::min_ord() <= b.ord() <= Self::max_ord(),
            a.ord() == b.ord() ==> *a == *b,
            Self::obeys_partial_cmp_spec(),
            (a.partial_cmp_spec(b) == Some(core::cmp::Ordering::Less)) <==> a.ord() < b.ord(),
    ;

    /// The number of steps from `start` to `end`, where `start <= end` and the number fits a
    /// `usize`.
    fn steps_between(start: &Self, end: &Self) -> (r: Option<usize>)
        ensures
            start.ord() <= end.ord() && end.ord() - start.ord() <= usize::MAX ==> r == Some(
                (end.ord() - start.ord()) as usize,
            ),
            !(start.ord() <= end.ord() && end.ord() - start.ord() <= usize::MAX) ==> r is None,
    ;

    /// `start` moved `count` steps forward, where the type can hold the result.
    fn forward_checked(start: Self, count: usize) -> (r: Option<Self>)
        ensures
            start.ord() + count <= Self::max_ord() ==> r is Some && r->0.ord() == start.ord()
                + count,
            start.ord() + count > Self::max_ord() ==> r is None,
    ;

    /// `start` moved `count` steps forward; the type must be able to hold the result.
    fn forward(start: Self, count: usize) -> (r: Self)
        requires
            start.ord() + count <= Self::max_ord(),
        ensures
            r.ord() == start.ord() + count,
    {
        Self::forward_checked(start, count).unwrap()
    }

    /// `start` moved `count` steps forward, with no check left to run: the type must be able
    /// to hold the result.
    fn forward_unchecked(start: Self, count: usize) -> (r: Self)
        requires
            start.ord() + count <= Self::max_ord(),
        ensures
            r.ord() == start.ord() + count,
    {
        Self::forward(start, count)
    }

    /// `start` moved `count` steps back, where the type can hold the result.
    fn backward_checked(start: Self, count: usize) -> (r: Option<Self>)
        ensures
            start.ord() - count >= Self::min_ord() ==> r is Some && r->0.ord() == start.ord()
                - count,
            start.ord() - count < Self::min_ord() ==> r is None,
    ;

    /// `start` moved `count` steps back; the type must be able to hold the result.
    fn backward(start: Self, count: usize) -> (r: Self)
        requires
            start.ord() - count >= Self::min_ord(),
        ensures
            r.ord() == start.ord() - count,
    {
        Self::backward_checked(start, count).unwrap()
    }

    /// `start` moved `count` steps back, with no check left to run: the type must be able to
    /// hold the result.
    fn backward_unchecked(start: Self, count: usize) -> (r: Self)
        requires
            start.ord() - count >= Self::min_ord(),
        ensures
            r.ord() == start.ord() - count,
    {
        Self::backward(start, count)
    }
}

/// A `u8` stands at its own value; it steps by checked arithmetic on `u8`.
impl Step for u8 {
    open spec fn ord(&self) -> int {
        *self as int
    }

    open spec fn min_ord() -> int {
        0
    }

    open spec fn max_ord() -> int {
        u8::MAX as int
    }

    proof fn lemma_ord(a: &Self, b: &Self) {
    }

    fn steps_between(start: &Self, end: &Self) -> (r: Option<usize>) {
        if *start <= *end {
            Some((*end - *start) as usize)
        } else {
            None
        }
    }

    fn forward_checked(start: Self, n: usize) -> (r: Option<Self>) {
        match u8::try_from(n) {
            Ok(n) => start.checked_add(n),
            Err(_) => None,
        }
    }

    fn backward_checked(start: Self, n: usize) -> (r: Option<Self>) {
        match u8::try_from(n) {
            Ok(n) => start.checked_sub(n),
            Err(_) => None,
        }
    }

    fn forward_unchecked(start: Self, n: usize) -> (r: Self) {
        start + n as Self
    }

    fn backward_unchecked(start: Self, n: usize) -> (r: Self) {
        start - n as Self
    }
}

/// A `u16` stands at its own value; it steps by checked arithmetic on `u16`.
impl Step for u16 {
    open spec fn ord(&self) -> int {
        *self as int
    }

    open spec fn min_ord() -> int {
        0
    }

    open spec fn max_ord() -> int {
        u16::MAX as int
    }

    proof fn lemma_ord(a: &Self, b: &Self) {
    }

    fn steps_between(start: &Self, end: &Self) -> (r: Option<usize>) {
        if *start <= *end {
            Some((*end - *start) as usize)
        } else {
            None
        }
    }

    fn forward_checked(start: Self, n: usize) -> (r: Option<Self>) {
        match u16::try_from(n) {
            Ok(n) => start.checked_add(n),
            Err(_) => None,
        }
    }

    fn backward_checked(start: Self, n: usize) -> (r: Option<Self>) {
        match u16::try_from(n) {
            Ok(n) => start.checked_sub(n),
            Err(_) => None,
        }
    }

    fn forward_unchecked(start: Self, n: usize) -> (r: Self) {
        start + n as Self
    }

    fn backward_unchecked(start: Self, n: usize) -> (r: Self) {
        start - n as Self
    }
}

/// A `u32` stands at its own value; it steps by checked arithmetic on `u32`.
impl Step for u32 {
    open spec fn ord(&self) -> int {
        *self as int
    }

    open spec fn min_ord() -> int {
        0
    }

    open spec fn max_ord() -> int {
        u32::MAX as int
    }

    proof fn lemma_ord(a: &Self, b: &Self) {
    }

    fn steps_between(start: &Self, end: &Self) -> (r: Option<usize>) {
        if *start <= *end {
            match usize::try_from(*end - *start) {
                Ok(d) => Some(d),
                Err(_) => None,
            }
        } else {
            None
        }
    }

    fn forward_checked(start: Self, n: usize) -> (r: Option<Self>) {
        match u32::try_from(n) {
            Ok(n) => start.checked_add(n),
            Err(_) => None,
        }
    }

    fn backward_checked(start: Self, n: usize) -> (r: Option<Self>) {
        match u32::try_from(n) {
            Ok(n) => start.checked_sub(n),
            Err(_) => None,
        }
    }

    fn forward_unchecked(start: Self, n: usize) -> (r: Self) {
        start + n as Self
    }

    fn backward_unchecked(start: Self, n: usize) -> (r: Self) {
        start - n as Self
    }
}

/// A `u64` stands at its own value; it steps by checked arithmetic on `u64`.
impl Step for u64 {
    open spec fn ord(&self) -> int {
        *self as int
    }

    open spec fn min_ord() -> int {
        0
    }

    open spec fn max_ord() -> int {
        u64::MAX as int
    }

    proof fn lemma_ord(a: &Self, b: &Self) {
    }

    fn steps_between(start: &Self, end: &Self) -> (r: Option<usize>) {
        if *start <= *end {
            match usize::try_from(*end - *start) {
                Ok(d) => Some(d),
                Err(_) => None,
            }
        } else {
            None
        }
    }

    fn forward_checked(start: Self, n: usize) -> (r: Option<Self>) {
        match u64::try_from(n) {
            Ok(n) => start.checked_add(n),
            Err(_) => None,
        }
    }

    fn backward_checked(start: Self, n: usize) -> (r: Option<Self>) {
        match u64::try_from(n) {
            Ok(n) => start.checked_sub(n),
            Err(_) => None,
        }
    }

    fn forward_unchecked(start: Self, n: usize) -> (r: Self) {
        start + n as Self
    }

    fn backward_unchecked(start: Self, n: usize) -> (r: Self) {
        start - n as Self
    }
}

/// A `usize` stands at its own value; it steps by checked arithmetic on `usize`.
impl Step for usize {
    open spec fn ord(&self) -> int {
        *self as int
    }

    open spec fn min_ord() -> int {
        0
    }

    open spec fn max_ord() -> int {
        usize::MAX as int
    }

    proof fn lemma_ord(a: &Self, b: &Self) {
    }

    fn steps_between(start: &Self, end: &Self) -> (r: Option<usize>) {
        if *start <= *end {
            Some(*end - *start)
        } else {
            None
        }
    }

    fn forward_checked(start: Self, n: usize) -> (r: Option<Self>) {
        start.checked_add(n)
    }

    fn backward_checked(start: Self, n: usize) -> (r: Option<Self>) {
        start.checked_sub(n)
    }

    fn forward_unchecked(start: Self, n: usize) -> (r: Self) {
        start + n as Self
    }

    fn backward_unchecked(start: Self, n: usize) -> (r: Self) {
        start - n as Self
    }
}

/// Whether `a` comes before `b`.
fn precedes<A: Step>(a: &A, b: &A) -> (r: bool)
    ensures
        r == (a.ord() < b.ord()),
{
    proof {
        A::lemma_ord(a, b);
    }
    *a < *b
}

/// What `size_hint` reports on `r`: the exact count where it fits a `usize`, else `usize::MAX`
/// and no upper bound.
pub open spec fn range_hint<A: Step>(r: &core::ops::Range<A>) -> (usize, Option<usize>) {
    if r.start.ord() < r.end.ord() {
        if r.end.ord() - r.start.ord() <= usize::MAX {
            (
                (r.end.ord() - r.start.ord()) as usize,
                Some((r.end.ord() - r.start.ord()) as usize),
            )
        } else {
            (usize::MAX, None)
        }
    } else {
        (0, Some(0))
    }
}

/// Walks `[start, end)` one step at a time, front first; empty once `start` is not below `end`.
impl<A: Step> Iterator for core::ops::Range<A> {
    type Item = A;

    open spec fn len_left(&self) -> nat {
        if self.start.ord() < self.end.ord() {
            (self.end.ord() - self.start.ord()) as nat
        } else {
            0
        }
    }

    open spec fn item_at(&self, i: int, x: A) -> bool {
        0 <= i < self.len_left() && x.ord() == self.start.ord() + i
    }

    open spec fn skipped(&self, rest: &Self, k: nat) -> bool {
        &&& rest.end == self.end
        &&& k <= self.len_left()
        &&& k < self.len_left() ==> rest.start.ord() == self.start.ord() + k
        &&& k == self.len_left() ==> rest.len_left() == 0
    }

    proof fn lemma_skipped(&self, rest: &Self, k: nat) {
    }

    proof fn lemma_skipped_none(&self) {
    }

    proof fn lemma_skipped_trans(&self, mid: &Self, rest: &Self, j: nat, k: nat) {
    }

    fn next(&mut self) -> (r: Option<A>)
        ensures
            final(self).end == old(self).end,
            old(self).start.ord() < old(self).end.ord() ==> final(self).start.ord() == old(
                self,
            ).start.ord() + 1,
            old(self).start.ord() >= old(self).end.ord() ==> *final(self) == *old(self),
    {
        proof {
            A::lemma_ord(&self.start, &self.end);
        }
        if precedes(&self.start, &self.end) {
            let n = A::forward_checked(self.start, 1).unwrap();
            let current = self.start;
            self.start = n;
            assert(old(self).skipped(self, 1));
            Some(current)
        } else {
            assert(old(self).skipped(self, 0));
            None
        }
    }

    fn size_hint(&self) -> (r: (usize, Option<usize>))
        ensures
            r == range_hint(self),
    {
        proof {
            A::lemma_ord(&self.start, &self.end);
        }
        if precedes(&self.start, &self.end) {
            let hint = A::steps_between(&self.start, &self.end);
            let lower = match hint {
                Some(h) => h,
                None => usize::MAX,
            };
            (lower, hint)
        } else {
            (0, Some(0))
        }
    }

    fn nth(&mut self, n: usize) -> (r: Option<A>)
        ensures
            final(self).end == old(self).end,
            n < old(self).len_left() ==> final(self).start.ord() == old(self).start.ord() + n + 1,
            n >= old(self).len_left() ==> final(self).start == old(self).end,
    {
        proof {
            A::lemma_ord(&self.start, &self.end);
        }
        match A::forward_checked(self.start, n) {
            Some(plus_n) => {
                proof {
                    A::lemma_ord(&plus_n, &self.end);
                }
                if precedes(&plus_n, &self.end) {
                    self.start = A::forward_checked(plus_n, 1).unwrap();
                    return Some(plus_n);
                }
            },
            None => {},
        }
        self.start = self.end;
        None
    }

    fn advance_by(&mut self, n: usize) -> (r: Result<(), usize>)
        ensures
            final(self).end == old(self).end,
            n <= old(self).len_left() ==> final(self).start.ord() == old(self).start.ord() + n,
            n > old(self).len_left() && old(self).len_left() > 0 ==> final(self).start == old(
                self,
            ).end,
            old(self).len_left() == 0 ==> *final(self) == *old(self),
    {
        proof {
            A::lemma_ord(&self.start, &self.end);
        }
        if precedes(&self.start, &self.end) {
            match A::forward_checked(self.start, n) {
                Some(p) => {
                    proof {
                        A::lemma_ord(&self.end, &p);
                    }
                    if !precedes(&self.end, &p) {
                        self.start = p;
                        return Ok(());
                    }
                },
                None => {},
            }
            let left = A::steps_between(&self.start, &self.end).unwrap();
            self.start = self.end;
            Err(left)
        } else if n == 0 {
            Ok(())
        } else {
            Err(0)
        }
    }
}

/// The items of `[a, b)` are `a, a + 1, ..., b - 1`, in that order; for `a <= b` there are
/// `b - a` of them, which is what `steps_between(a, b)` reports where it reports a number.
pub proof fn lemma_range_items<A: Step>(r: core::ops::Range<A>)
    ensures
        forall|i: int, x: A|
            0 <= i < r.len_left() ==> (#[trigger] r.item_at(i, x) <==> x.ord() == r.start.ord()
                + i),
        r.start.ord() <= r.end.ord() ==> r.len_left() == r.end.ord() - r.start.ord(),
        r.start.ord() > r.end.ord() ==> r.len_left() == 0,
{
}

/// On `[a, b)` with `a + n >= b`, no item stands at position `n`: `nth(n)` hands out nothing
/// and leaves the range empty, so `next` hands out nothing after it.
pub proof fn lemma_nth_past_end<A: Step>(r: core::ops::Range<A>, n: nat)
    requires
        r.start.ord() + n >= r.end.ord(),
    ensures
        n >= r.len_left(),
        forall|x: A| !r.item_at(n as int, x),
{
}

} // verus!
