//! Small helpers.

use std::ops::RangeInclusive;
use vstd::prelude::*;

verus! {

/// `RangeInclusive::into_inner` hands out the lower bound and the upper,
/// inclusive bound that the range was made with.
pub assume_specification<Idx>[ RangeInclusive::<Idx>::into_inner ](
    range: RangeInclusive<Idx>,
) -> (bounds: (Idx, Idx))
    ensures
        bounds.0 == range@.start,
        bounds.1 == range@.end,
;

/// Maps an `RangeInclusive<T>` to `RangeInclusive<U>` by applying a
/// function to the bounds.
pub fn map_range_inclusive<T, U, F>(range: RangeInclusive<T>, f: F) -> (mapped: RangeInclusive<U>)
    where
        F: Fn(T) -> U,
    requires
        f.requires((range@.start,)),
        f.requires((range@.end,)),
    ensures
        f.ensures((range@.start,), mapped@.start),
        f.ensures((range@.end,), mapped@.end),
        !mapped@.exhausted,
{
    let (start, end) = range.into_inner();
    RangeInclusive::new(f(start), f(end))
}

} // verus!
