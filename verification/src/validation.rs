//! The test of a time against a window.

use vstd::prelude::*;

verus! {

/// Whether `now` lies from `start` to `end`, both included.
pub fn is_valid_date(now: u64, start: &u64, end: &u64) -> (valid: bool)
    ensures
        valid == (*start <= now && now <= *end),
{
    now >= *start && now <= *end
}

} // verus!
