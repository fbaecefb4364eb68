//! Extremum reductions over a sequence of signed 64-bit integers.
//!
//! Both reductions are total over non-empty slices and fail with
//! [`EmptySequenceError`] on an empty one.

use vstd::prelude::*;
use vstd::slice::slice_index_get;

use crate::errors::EmptySequenceError;

verus! {

/// Returns the least element of `list`, or `EmptySequenceError` when `list`
/// is empty.
///
/// On success the result is an element of `list` and a lower bound of every
/// element of `list`.
pub fn min(list: &[i64]) -> (r: Result<i64, EmptySequenceError>)
    ensures
        match r {
            Ok(m) => list@.len() > 0 && list@.contains(m) && (forall|i: int|
                0 <= i < list@.len() ==> m <= list@[i]),
            Err(e) => list@.len() == 0 && e == EmptySequenceError,
        },
{
    if list.len() == 0 {
        return Err(EmptySequenceError);
    }
    let mut best: i64 = *slice_index_get(list, 0);
    let mut i: usize = 1;
    while i < list.len()
        invariant
            1 <= i <= list@.len(),
            exists|j: int| 0 <= j < i && list@[j] == best,
            forall|j: int| 0 <= j < i ==> best <= list@[j],
        decreases list@.len() - i,
    {
        let x = *slice_index_get(list, i);
        if x < best {
            best = x;
        }
        i = i + 1;
    }
    Ok(best)
}

/// Returns the greatest element of `list`, or `EmptySequenceError` when
/// `list` is empty.
///
/// On success the result is an element of `list` and an upper bound of every
/// element of `list`.
pub fn max(list: &[i64]) -> (r: Result<i64, EmptySequenceError>)
    ensures
        match r {
            Ok(m) => list@.len() > 0 && list@.contains(m) && (forall|i: int|
                0 <= i < list@.len() ==> list@[i] <= m),
            Err(e) => list@.len() == 0 && e == EmptySequenceError,
        },
{
    if list.len() == 0 {
        return Err(EmptySequenceError);
    }
    let mut best: i64 = *slice_index_get(list, 0);
    let mut i: usize = 1;
    while i < list.len()
        invariant
            1 <= i <= list@.len(),
            exists|j: int| 0 <= j < i && list@[j] == best,
            forall|j: int| 0 <= j < i ==> list@[j] <= best,
        decreases list@.len() - i,
    {
        let x = *slice_index_get(list, i);
        if best < x {
            best = x;
        }
        i = i + 1;
    }
    Ok(best)
}

} // verus!
