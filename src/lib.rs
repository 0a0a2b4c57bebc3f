//! Lazy, pull-based iteration: a protocol of producers pulled with `next`, the protocol by which
//! collections are built from them, and two producers, a walker over a mutable slice and a
//! walker over a half-open range of steppable values.
pub mod iterator;
pub mod option;
pub mod slice_iter;
pub mod range;
pub mod collection;
