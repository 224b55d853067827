//! Which terms a run sums up.
//!
//! The terms are numbered from 3. The partial sum at place `i` of the
//! sequence, counted from 0, is the sum of the terms 3 to `i + 3`.

use vstd::prelude::*;
use crate::config::Config;

verus! {

/// Number of the first term.
pub const FIRST_INDEX: u64 = 3;

/// Number of the last term that the partial sum at `position` contains.
pub open spec fn index_at(position: int) -> int {
    FIRST_INDEX + position
}

/// The numbers of the terms of a run, in the order in which they are summed:
/// as many as the run has points, counting up from [`FIRST_INDEX`].
pub fn term_indices(config: &Config) -> (r: Vec<u64>)
    ensures
        r@.len() == config@.points,
        forall|i: int| 0 <= i < r@.len() ==> #[trigger] r@[i] == index_at(i),
{
    let points = config.points();
    let mut indices: Vec<u64> = Vec::new();
    let mut i: u32 = 0;
    while i < points
        invariant
            i <= points,
            indices@.len() == i,
            forall|k: int| 0 <= k < i ==> #[trigger] indices@[k] == index_at(k),
        decreases points - i,
    {
        indices.push(i as u64 + FIRST_INDEX);
        i = i + 1;
    }
    indices
}

} // verus!
