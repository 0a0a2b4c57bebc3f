use vstd::prelude::*;

verus! {

/// `items` holds, in order, the items that `src` stands for.
pub open spec fn gathered<T: IntoIterator>(src: T, items: Seq<T::Item>) -> bool {
    &&& items.len() == src.count_items()
    &&& forall|i: int| 0 <= i < items.len() ==> #[trigger] src.has_item_at(i, items[i])
}

/// A value that can be turned into an iterator.
pub trait IntoIterator {
    type Item;

    type IntoIter: Iterator<Item = Self::Item>;

    /// How many items the iterator made from `self` hands out.
    spec fn count_items(&self) -> nat;

    /// `x` is the item at position `i` of the iterator made from `self`.
    spec fn has_item_at(&self, i: int, x: Self::Item) -> bool;

    fn into_iter(self) -> (r: Self::IntoIter)
        ensures
            r.len_left() == self.count_items(),
            forall|i: int, x: Self::Item|
                0 <= i < r.len_left() ==> (#[trigger] r.item_at(i, x) <==> self.has_item_at(i, x)),
    ;
}

impl<I: Iterator> IntoIterator for I {
    type Item = I::Item;

    type IntoIter = I;

    open spec fn count_items(&self) -> nat {
        self.len_left()
    }

    open spec fn has_item_at(&self, i: int, x: I::Item) -> bool {
        self.item_at(i, x)
    }

    fn into_iter(self) -> (r: I)
        ensures
            r == self,
    {
        self
    }
}

/// `items` holds, in order, the items that `it` has still to hand out.
pub open spec fn listed<I: Iterator>(it: I, items: Seq<I::Item>) -> bool {
    &&& items.len() == it.len_left()
    &&& forall|i: int| 0 <= i < items.len() ==> #[trigger] it.item_at(i, items[i])
}

/// A producer of items, pulled one at a time with `next`.
pub trait Iterator: Sized {
    type Item;

    /// How many items are still to come.
    spec fn len_left(&self) -> nat;

    /// `x` is the item at position `i` among those still to come, counted from the front.
    spec fn item_at(&self, i: int, x: Self::Item) -> bool;

    /// `rest` is `self` with its first `k` items handed out.
    spec fn skipped(&self, rest: &Self, k: nat) -> bool;

    /// Handing out `k` items leaves the ones after them, in order.
    proof fn lemma_skipped(&self, rest: &Self, k: nat)
        requires
            self.skipped(rest, k),
        ensures
            rest.len_left() + k == self.len_left(),
            forall|i: int, x: Self::Item|
                0 <= i < rest.len_left() ==> (#[trigger] rest.item_at(i, x) <==> self.item_at(
                    i + k,
                    x,
                )),
    ;

    /// Handing out no item leaves the iterator as it is.
    proof fn lemma_skipped_none(&self)
        ensures
            self.skipped(self, 0),
    ;

    /// Handing out `j` items and then `k` more hands out `j + k`.
    proof fn lemma_skipped_trans(&self, mid: &Self, rest: &Self, j: nat, k: nat)
        requires
            self.skipped(mid, j),
            mid.skipped(rest, k),
        ensures
            self.skipped(rest, j + k),
    ;

    /// Hands out the first item left, or nothing once none is left.
    fn next(&mut self) -> (r: Option<Self::Item>)
        ensures
            old(self).len_left() == 0 ==> r is None && final(self).len_left() == 0,
            old(self).len_left() == 0 ==> old(self).skipped(&*final(self), 0),
            old(self).len_left() > 0 ==> r is Some && old(self).item_at(0, r->0),
            old(self).len_left() > 0 ==> old(self).skipped(&*final(self), 1),
            old(self).len_left() > 0 ==> final(self).len_left() + 1 == old(self).len_left(),
            old(self).len_left() > 0 ==> forall|i: int, x: Self::Item|
                0 <= i < final(self).len_left() ==> (#[trigger] final(self).item_at(i, x)
                    <==> old(self).item_at(i + 1, x)),
    ;

    /// A lower bound on the items left, and an upper bound where one is known. Unless a
    /// producer knows better, it reports no information: `(0, None)`.
    fn size_hint(&self) -> (r: (usize, Option<usize>))
        ensures
            r.0 <= self.len_left(),
            r.1 is Some ==> self.len_left() <= r.1->0,
        default_ensures
            r == (0usize, None::<usize>),
    {
        (0, None)
    }

    /// Left fold over all items left, from the first to the last: `r` is the last of a chain of
    /// accumulators that starts at `init`, each one what `f` gives on the one before and the
    /// next item.
    fn fold<B, F>(self, init: B, f: F) -> (r: B) where
        Self: Sized,
        F: FnMut(B, Self::Item) -> B,

        requires
            forall|b: B, x: Self::Item| #[trigger] f.requires((b, x)),
        ensures
            exists|accs: Seq<B>, items: Seq<Self::Item>|
                {
                    &&& accs.len() == self.len_left() + 1
                    &&& items.len() == self.len_left()
                    &&& accs[0] == init
                    &&& accs.last() == r
                    &&& forall|j: int|
                        0 <= j < items.len() ==> self.item_at(j, #[trigger] items[j]) && f.ensures(
                            (accs[j], items[j]),
                            accs[j + 1],
                        )
                },
    {
        let mut it = self;
        let mut g = f;
        let mut accum = init;
        let ghost accs: Seq<B> = seq![accum];
        let ghost items: Seq<Self::Item> = seq![];
        loop
            invariant
                it.len_left() + items.len() == self.len_left(),
                forall|i: int, x: Self::Item|
                    0 <= i < it.len_left() ==> (#[trigger] it.item_at(i, x) <==> self.item_at(
                        i + items.len(),
                        x,
                    )),
                accs.len() == items.len() + 1,
                accs[0] == init,
                accs.last() == accum,
                g == f,
                forall|b: B, x: Self::Item| #[trigger] f.requires((b, x)),
                forall|j: int|
                    0 <= j < items.len() ==> self.item_at(j, #[trigger] items[j]) && f.ensures(
                        (accs[j], items[j]),
                        accs[j + 1],
                    ),
            decreases it.len_left(),
        {
            let ghost before = it;
            match it.next() {
                Some(x) => {
                    proof {
                        assert(before.item_at(0, x));
                        assert(self.item_at(0 + items.len() as int, x));
                        assert forall|i: int, y: Self::Item|
                            0 <= i < it.len_left() implies (#[trigger] it.item_at(i, y)
                            <==> self.item_at(i + (items.len() + 1), y)) by {
                            assert(before.item_at(i + 1, y) <==> self.item_at(
                                (i + 1) + items.len(),
                                y,
                            ));
                        }
                    }
                    accum = g(accum, x);
                    proof {
                        items = items.push(x);
                        accs = accs.push(accum);
                        assert forall|j: int|
                            0 <= j < items.len() implies self.item_at(j, #[trigger] items[j])
                            && f.ensures((accs[j], items[j]), accs[j + 1]) by {
                            if j + 1 < items.len() {
                                assert(items[j] == items.drop_last()[j]);
                            }
                        }
                    }
                },
                None => {
                    assert(items.len() == self.len_left());
                    assert(accs.len() == self.len_left() + 1);
                    return accum;
                },
            }
        }
    }

    /// Skips `n` items; where fewer are left, skips them all and reports how many.
    fn advance_by(&mut self, n: usize) -> (r: Result<(), usize>)
        ensures
            r is Ok <==> n <= old(self).len_left(),
            r matches Err(k) ==> k == old(self).len_left(),
            n <= old(self).len_left() ==> final(self).len_left() + n == old(self).len_left(),
            n > old(self).len_left() ==> final(self).len_left() == 0,
            old(self).skipped(
                &*final(self),
                if n <= old(self).len_left() {
                    n as nat
                } else {
                    old(self).len_left()
                },
            ),
            forall|i: int, x: Self::Item|
                0 <= i < final(self).len_left() ==> (#[trigger] final(self).item_at(i, x)
                    <==> old(self).item_at(i + n, x)),
    {
        let mut i: usize = 0;
        proof {
            self.lemma_skipped_none();
        }
        while i < n
            invariant
                i <= n,
                old(self).skipped(self, i as nat),
                i <= old(self).len_left(),
                self.len_left() + i == old(self).len_left(),
                forall|j: int, x: Self::Item|
                    0 <= j < self.len_left() ==> (#[trigger] self.item_at(j, x) <==> old(
                        self,
                    ).item_at(j + i, x)),
            decreases n - i,
        {
            let ghost before = *self;
            match self.next() {
                Some(_) => {
                    proof {
                        old(self).lemma_skipped_trans(&before, self, i as nat, 1);
                        assert forall|j: int, x: Self::Item|
                            0 <= j < self.len_left() implies (#[trigger] self.item_at(j, x)
                            <==> old(self).item_at(j + (i + 1), x)) by {
                            assert(before.item_at(j + 1, x) <==> old(self).item_at(
                                (j + 1) + i,
                                x,
                            ));
                        }
                    }
                },
                None => {
                    proof {
                        old(self).lemma_skipped_trans(&before, self, i as nat, 0);
                    }
                    return Err(i);
                },
            }
            i = i + 1;
        }
        Ok(())
    }

    /// Skips `n` items and hands out the next one; where no such item is left, empties the
    /// iterator and hands out nothing.
    fn nth(&mut self, n: usize) -> (r: Option<Self::Item>)
        ensures
            n < old(self).len_left() ==> r is Some && old(self).item_at(n as int, r->0),
            n < old(self).len_left() ==> final(self).len_left() + n + 1 == old(self).len_left(),
            n < old(self).len_left() ==> old(self).skipped(&*final(self), (n + 1) as nat),
            n >= old(self).len_left() ==> r is None && final(self).len_left() == 0,
            forall|i: int, x: Self::Item|
                0 <= i < final(self).len_left() ==> (#[trigger] final(self).item_at(i, x)
                    <==> old(self).item_at(i + n + 1, x)),
    {
        match self.advance_by(n) {
            Ok(()) => {},
            Err(_) => {
                return None;
            },
        }
        let ghost mid = *self;
        let r = self.next();
        proof {
            if n < old(self).len_left() {
                old(self).lemma_skipped_trans(&mid, self, n as nat, 1);
                assert(mid.item_at(0, r->0));
                assert(old(self).item_at(0 + n, r->0));
                assert forall|i: int, x: Self::Item|
                    0 <= i < self.len_left() implies (#[trigger] self.item_at(i, x)
                    <==> old(self).item_at(i + n + 1, x)) by {
                    assert(mid.item_at(i + 1, x) <==> old(self).item_at((i + 1) + n, x));
                }
            }
        }
        r
    }
}

/// Builds a collection from all items that `it` has left, in order.
pub fn collect<I: Iterator, B: FromIterator<I::Item>>(it: I) -> (r: B)
    ensures
        listed(it, r.contents()),
{
    let r = B::from_iter(it);
    assert forall|i: int| 0 <= i < r.contents().len() implies #[trigger] it.item_at(
        i,
        r.contents()[i],
    ) by {
        assert(it.has_item_at(i, r.contents()[i]));
    }
    r
}

/// A collection that can be built from an iterator.
pub trait FromIterator<A>: Sized {
    /// The items the collection holds, in order.
    spec fn contents(&self) -> Seq<A>;

    fn from_iter<T>(iter: T) -> (r: Self) where T: IntoIterator<Item = A>
        ensures
            gathered(iter, r.contents()),
    ;
}

/// A collection that can be grown from an iterator.
pub trait Extend<A> {
    /// The items the collection holds, in order.
    spec fn items(&self) -> Seq<A>;

    /// Appends the items of `iter`, in order.
    fn extend<T: IntoIterator<Item = A>>(&mut self, iter: T)
        ensures
            final(self).items().len() == old(self).items().len() + iter.count_items(),
            final(self).items().subrange(0, old(self).items().len() as int) == old(self).items(),
            gathered(iter, final(self).items().subrange(old(self).items().len() as int, final(self).items().len() as int)),
    ;

    /// Appends one item.
    fn extend_one(&mut self, item: A)
        ensures
            final(self).items() == old(self).items().push(item),
    {
        self.extend(Some(item));
        proof {
            let s = self.items().subrange(old(self).items().len() as int, self.items().len() as int);
            assert(Some(item).has_item_at(0, s[0]));
            assert(self.items() =~= old(self).items().push(item));
        }
    }

    /// A hint that `additional` more items are coming; changes no item.
    fn extend_reserve(&mut self, additional: usize)
        ensures
            final(self).items() == old(self).items(),
    {
        let _ = additional;
    }
}

} // verus!
