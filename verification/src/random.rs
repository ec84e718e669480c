//! The process-wide random generator of `lazyrand`.

use vstd::prelude::*;

verus! {

/// `lazyrand::choice` returns `None` for an empty slice and otherwise a clone
/// of the element at a random position. Which position is not said.
pub assume_specification<T: std::clone::Clone>[ lazyrand::choice::<T> ](slice: &[T]) -> (r: Option<T>)
    ensures
        match r {
            Some(picked) => exists|i: int| 0 <= i < slice@.len() && cloned(#[trigger] slice@[i], picked),
            None => slice@.len() == 0,
        },
;

} // verus!
