use lazy_iter::iterator::{collect, Extend, FromIterator, IntoIterator, Iterator};
use lazy_iter::option::IntoIter;
use lazy_iter::range::Step;
use lazy_iter::slice_iter::IterMut;

#[test]
fn slice_walk_from_both_ends() {
    let mut data = [10, 20, 30, 40];
    let mut it = IterMut::new(&mut data);
    assert_eq!(it.next().map(|x| *x), Some(10));
    assert_eq!(it.next_back().map(|x| *x), Some(40));
    assert_eq!(it.size_hint(), (2, Some(2)));
    assert_eq!(it.last().map(|x| *x), Some(30));
    assert_eq!(it.next().map(|x| *x), Some(20));
    assert!(it.next().is_none());
    assert!(it.next().is_none());
}

#[test]
fn slice_items_can_be_written() {
    let mut data = [1, 2, 3];
    {
        let mut it = IterMut::new(&mut data);
        while let Some(x) = it.next() {
            *x *= 10;
        }
    }
    assert_eq!(data, [10, 20, 30]);
}

#[test]
fn slice_hint_after_prefix() {
    let mut data = [1u8, 2, 3, 4, 5];
    for k in 0..=5usize {
        let mut it = IterMut::new(&mut data);
        for _ in 0..k {
            assert!(it.next().is_some());
        }
        assert_eq!(it.size_hint(), (5 - k, Some(5 - k)));
    }
}

#[test]
fn zero_sized_elements_are_counted() {
    let mut units = [(); 7];
    let mut it = IterMut::new(&mut units);
    assert_eq!(it.size_hint(), (7, Some(7)));
    let mut n = 0;
    while it.next().is_some() {
        n += 1;
    }
    assert_eq!(n, 7);
    assert_eq!(it.size_hint(), (0, Some(0)));
}

#[test]
fn zero_sized_elements_from_the_back() {
    let mut units = [(); 3];
    let mut it = IterMut::new(&mut units);
    assert!(it.next_back().is_some());
    assert!(it.next().is_some());
    assert_eq!(it.count(), 1);
}

#[test]
fn slice_advance_by() {
    let mut data = [1, 2, 3, 4];
    let mut it = IterMut::new(&mut data);
    assert_eq!(it.advance_by(3), Ok(()));
    assert_eq!(it.size_hint(), (1, Some(1)));
    assert_eq!(it.next().map(|x| *x), Some(4));
    let mut data = [1, 2, 3];
    let mut it = IterMut::new(&mut data);
    assert_eq!(it.advance_by(5), Err(3));
    assert_eq!(it.size_hint(), (0, Some(0)));
    let mut it = IterMut::new(&mut data);
    assert_eq!(it.advance_by(0), Ok(()));
    assert_eq!(it.size_hint(), (3, Some(3)));
}

#[test]
fn slice_nth() {
    let mut data = [5, 6, 7, 8];
    let mut it = IterMut::new(&mut data);
    assert_eq!(it.nth(1).map(|x| *x), Some(6));
    assert_eq!(it.next().map(|x| *x), Some(7));
    assert!(it.nth(1).is_none());
    assert_eq!(it.size_hint(), (0, Some(0)));
    assert!(it.next().is_none());
}

#[test]
fn slice_empty() {
    let mut data: [u32; 0] = [];
    let mut it = IterMut::new(&mut data);
    assert_eq!(it.size_hint(), (0, Some(0)));
    assert!(it.next().is_none());
    assert!(it.next_back().is_none());
    assert!(it.last().is_none());
    assert_eq!(it.advance_by(0), Ok(()));
    assert_eq!(it.advance_by(1), Err(0));
}

#[test]
fn range_nth_then_next() {
    let mut r = 0u32..5;
    assert_eq!(Iterator::nth(&mut r, 2), Some(2));
    assert_eq!(Iterator::next(&mut r), Some(3));
    assert_eq!(Iterator::next(&mut r), Some(4));
    assert_eq!(Iterator::next(&mut r), None);
}

#[test]
fn range_emits_arithmetic_sequence() {
    let mut r = 3u64..8;
    let mut out = Vec::new();
    while let Some(x) = Iterator::next(&mut r) {
        out.push(x);
    }
    assert_eq!(out, vec![3, 4, 5, 6, 7]);
    assert_eq!(<u64 as Step>::steps_between(&3, &8), Some(5));
    assert_eq!(out.len(), 5);
    assert_eq!(Iterator::next(&mut r), None);
}

#[test]
fn range_nth_past_end_empties() {
    let mut r = 4u8..7;
    assert_eq!(Iterator::nth(&mut r, 3), None);
    assert_eq!(Iterator::next(&mut r), None);
    let mut r = 250u8..255;
    assert_eq!(Iterator::nth(&mut r, 10), None);
    assert_eq!(Iterator::next(&mut r), None);
    assert_eq!(Iterator::size_hint(&r), (0, Some(0)));
}

#[test]
fn range_size_hint() {
    assert_eq!(Iterator::size_hint(&(2u16..9)), (7, Some(7)));
    assert_eq!(Iterator::size_hint(&(9u16..2)), (0, Some(0)));
    assert_eq!(Iterator::size_hint(&(4usize..4)), (0, Some(0)));
    assert_eq!(
        Iterator::size_hint(&(0u64..u64::MAX)),
        (u64::MAX as usize, Some(u64::MAX as usize))
    );
}

#[test]
fn range_advance_by() {
    let mut r = 10u32..14;
    assert_eq!(Iterator::advance_by(&mut r, 3), Ok(()));
    assert_eq!(Iterator::next(&mut r), Some(13));
    let mut r = 10u32..14;
    assert_eq!(Iterator::advance_by(&mut r, 6), Err(4));
    assert_eq!(Iterator::size_hint(&r), (0, Some(0)));
    let mut r = 10u32..14;
    assert_eq!(Iterator::advance_by(&mut r, 4), Ok(()));
    assert_eq!(Iterator::next(&mut r), None);
    let mut r = 7u32..3;
    assert_eq!(Iterator::advance_by(&mut r, 0), Ok(()));
    assert_eq!(Iterator::advance_by(&mut r, 2), Err(0));
}

#[test]
fn range_ends_at_type_maximum() {
    let mut r = 253u8..255;
    assert_eq!(Iterator::next(&mut r), Some(253));
    assert_eq!(Iterator::next(&mut r), Some(254));
    assert_eq!(Iterator::next(&mut r), None);
}

#[test]
fn step_checked_arithmetic() {
    assert_eq!(<u8 as Step>::forward_checked(250, 5), Some(255));
    assert_eq!(<u8 as Step>::forward_checked(250, 6), None);
    assert_eq!(<u8 as Step>::forward_checked(0, 300), None);
    assert_eq!(<u8 as Step>::backward_checked(5, 5), Some(0));
    assert_eq!(<u8 as Step>::backward_checked(5, 6), None);
    assert_eq!(<u16 as Step>::forward_checked(1000, 24), Some(1024));
    assert_eq!(<u32 as Step>::backward_checked(7, 3), Some(4));
    assert_eq!(<usize as Step>::forward_checked(usize::MAX, 1), None);
    assert_eq!(<u64 as Step>::forward_checked(u64::MAX - 1, 1), Some(u64::MAX));
}

#[test]
fn step_unchecked_and_plain_forms() {
    assert_eq!(<u8 as Step>::forward(200, 55), 255);
    assert_eq!(<u8 as Step>::backward(200, 200), 0);
    assert_eq!(<u32 as Step>::forward_unchecked(40, 2), 42);
    assert_eq!(<u32 as Step>::backward_unchecked(40, 2), 38);
    assert_eq!(<usize as Step>::forward(1, 2), 3);
}

#[test]
fn step_steps_between() {
    assert_eq!(<u8 as Step>::steps_between(&3, &10), Some(7));
    assert_eq!(<u8 as Step>::steps_between(&10, &3), None);
    assert_eq!(<u32 as Step>::steps_between(&5, &5), Some(0));
    assert_eq!(<usize as Step>::steps_between(&0, &usize::MAX), Some(usize::MAX));
}

#[test]
fn collect_range_then_walk_it_again() {
    let r = 2u32..6;
    let mut v: Vec<u32> = collect(r);
    assert_eq!(v, vec![2, 3, 4, 5]);
    let mut walk = IterMut::new(&mut v);
    let mut again = Vec::new();
    while let Some(x) = walk.next() {
        again.push(*x);
    }
    let mut expected = Vec::new();
    let mut r = 2u32..6;
    while let Some(x) = Iterator::next(&mut r) {
        expected.push(x);
    }
    assert_eq!(again, expected);
}

#[test]
fn from_iter_keeps_order() {
    let v: Vec<u8> = FromIterator::from_iter(5u8..9);
    assert_eq!(v, vec![5, 6, 7, 8]);
    let e: Vec<u8> = FromIterator::from_iter(9u8..5);
    assert!(e.is_empty());
    let one: Vec<u8> = FromIterator::from_iter(Some(3u8));
    assert_eq!(one, vec![3]);
}

#[test]
fn extend_appends_in_order() {
    let mut v = vec![1u32, 2];
    Extend::extend(&mut v, 7u32..10);
    assert_eq!(v, vec![1, 2, 7, 8, 9]);
    Extend::extend_one(&mut v, 4);
    assert_eq!(v, vec![1, 2, 7, 8, 9, 4]);
    Extend::extend_reserve(&mut v, 100);
    assert_eq!(v, vec![1, 2, 7, 8, 9, 4]);
    Extend::extend(&mut v, None::<u32>);
    assert_eq!(v, vec![1, 2, 7, 8, 9, 4]);
}

#[test]
fn fold_runs_left_to_right() {
    let sum = Iterator::fold(1u32..5, 0u32, |acc, x| acc + x);
    assert_eq!(sum, 10);
    let digits = Iterator::fold(1u32..4, 0u32, |acc, x| acc * 10 + x);
    assert_eq!(digits, 123);
    let empty = Iterator::fold(3u32..3, 99u32, |acc, x| acc + x);
    assert_eq!(empty, 99);
}

#[test]
fn option_hands_out_its_value_once() {
    let mut it: IntoIter<u8> = IntoIterator::into_iter(Some(9u8));
    assert_eq!(it.size_hint(), (0, None));
    assert_eq!(it.next(), Some(9));
    assert_eq!(it.next(), None);
    let mut none: IntoIter<u8> = IntoIterator::into_iter(None);
    assert_eq!(none.next(), None);
}

#[test]
fn option_nth_and_advance() {
    let mut it: IntoIter<&str> = IntoIterator::into_iter(Some("x"));
    assert_eq!(it.nth(1), None);
    let mut it: IntoIter<&str> = IntoIterator::into_iter(Some("x"));
    assert_eq!(it.advance_by(1), Ok(()));
    assert_eq!(it.next(), None);
}

#[test]
fn iterator_into_iter_is_itself() {
    let mut r = IntoIterator::into_iter(1u8..3);
    assert_eq!(Iterator::next(&mut r), Some(1));
    assert_eq!(Iterator::next(&mut r), Some(2));
    assert_eq!(Iterator::next(&mut r), None);
}

#[test]
fn range_final_bounds() {
    let mut r = 0u32..5;
    assert_eq!(Iterator::nth(&mut r, 2), Some(2));
    assert_eq!(r, 3..5);
    assert_eq!(Iterator::next(&mut r), Some(3));
    assert_eq!(Iterator::next(&mut r), Some(4));
    assert_eq!(r, 5..5);
    assert_eq!(Iterator::next(&mut r), None);
    assert_eq!(r, 5..5);
    let mut r = 4u8..7;
    assert_eq!(Iterator::nth(&mut r, 3), None);
    assert_eq!(r, 7..7);
    let mut r = 9u8..4;
    assert_eq!(Iterator::next(&mut r), None);
    assert_eq!(r, 9..4);
    assert_eq!(Iterator::nth(&mut r, 0), None);
    assert_eq!(r, 4..4);
    let mut r = 10u32..14;
    assert_eq!(Iterator::advance_by(&mut r, 6), Err(4));
    assert_eq!(r, 14..14);
    let mut r = 10u32..14;
    assert_eq!(Iterator::advance_by(&mut r, 2), Ok(()));
    assert_eq!(r, 12..14);
    let mut r = 9u32..3;
    assert_eq!(Iterator::advance_by(&mut r, 5), Err(0));
    assert_eq!(r, 9..3);
}

#[test]
fn into_iter_of_an_iterator_is_itself() {
    let r = IntoIterator::into_iter(3u16..8);
    assert_eq!(r, 3..8);
}
