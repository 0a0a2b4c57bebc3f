use vstd::prelude::*;

use crate::iterator::{Extend, FromIterator, IntoIterator, Iterator, listed};
use crate::range::Step;
use crate::slice_iter::IterMut;

verus! {

/// A `Vec` is built from an iterator by pushing its items in order.
impl<A> FromIterator<A> for Vec<A> {
    open spec fn contents(&self) -> Seq<A> {
        self@
    }

    fn from_iter<T>(iter: T) -> (r: Vec<A>) where T: IntoIterator<Item = A> {
        let mut v: Vec<A> = Vec::new();
        Extend::extend(&mut v, iter);
        proof {
            assert(v@.subrange(0, v@.len() as int) =~= v@);
        }
        v
    }
}

/// A `Vec` grows by pushing the items at its end, in order.
impl<A> Extend<A> for Vec<A> {
    open spec fn items(&self) -> Seq<A> {
        self@
    }

    fn extend<T: IntoIterator<Item = A>>(&mut self, iter: T) {
        let ghost src = iter;
        let ghost start = self@;
        let mut it = iter.into_iter();
        loop
            invariant
                self@.len() + it.len_left() == start.len() + src.count_items(),
                start.len() <= self@.len(),
                self@.subrange(0, start.len() as int) == start,
                forall|i: int, x: A|
                    0 <= i < it.len_left() ==> (#[trigger] it.item_at(i, x) <==> src.has_item_at(
                        i + (self@.len() - start.len()),
                        x,
                    )),
                forall|j: int|
                    0 <= j < self@.len() - start.len() ==> #[trigger] src.has_item_at(
                        j,
                        self@[start.len() + j],
                    ),
            ensures
                self@.len() == start.len() + src.count_items(),
                self@.subrange(0, start.len() as int) == start,
                forall|j: int|
                    0 <= j < self@.len() - start.len() ==> #[trigger] src.has_item_at(
                        j,
                        self@[start.len() + j],
                    ),
            decreases it.len_left(),
        {
            let ghost before = it;
            let ghost done = self@.len() - start.len();
            match it.next() {
                Some(x) => {
                    proof {
                        assert(before.item_at(0, x));
                        assert(src.has_item_at(0 + done, x));
                    }
                    self.push(x);
                    proof {
                        assert(self@.subrange(0, start.len() as int) =~= start);
                        assert forall|i: int, y: A|
                            0 <= i < it.len_left() implies (#[trigger] it.item_at(i, y)
                            <==> src.has_item_at(i + (self@.len() - start.len()), y)) by {
                            assert(before.item_at(i + 1, y) <==> src.has_item_at(
                                (i + 1) + done,
                                y,
                            ));
                        }
                        assert forall|j: int|
                            0 <= j < self@.len() - start.len() implies #[trigger] src.has_item_at(
                            j,
                            self@[start.len() + j],
                        ) by {
                            if j < done {
                                assert(self@[start.len() + j] == self@.drop_last()[start.len() + j]);
                            }
                        }
                    }
                },
                None => {
                    break ;
                },
            }
        }
        proof {
            let s = self@.subrange(start.len() as int, self@.len() as int);
            assert forall|i: int| 0 <= i < s.len() implies #[trigger] src.has_item_at(i, s[i]) by {
                assert(s[i] == self@[start.len() + i]);
                assert(src.has_item_at(i, self@[start.len() + i]));
            }
        }
    }
}

/// Collecting a range into a `Vec` and walking that `Vec` with `IterMut` hands out the range's
/// values again, in the same order.
pub proof fn lemma_round_trip<'a, A: Step>(
    range: core::ops::Range<A>,
    collected: Vec<A>,
    walk: IterMut<'a, A>,
)
    requires
        listed(range, collected@),
        walk@ == collected@,
    ensures
        walk.len_left() == range.len_left(),
        forall|i: int, x: &'a mut A|
            0 <= i < walk.len_left() ==> (#[trigger] walk.item_at(i, x) <==> range.item_at(i, *x)),
{
    assert forall|i: int, x: &'a mut A| 0 <= i < walk.len_left() implies (#[trigger] walk.item_at(
        i,
        x,
    ) <==> range.item_at(i, *x)) by {
        assert(range.item_at(i, collected@[i]));
        A::lemma_ord(&*x, &collected@[i]);
    }
}

} // verus!
