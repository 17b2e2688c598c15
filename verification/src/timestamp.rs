//! Wall-clock timestamps for last-write-wins assignments.
use vstd::prelude::*;

verus! {

/// Microseconds since the Unix epoch, from the whole seconds elapsed and
/// the microseconds elapsed within the current second.
pub fn now_micros(secs: u64, subsec_micros: u32) -> (r: i128)
    ensures
        r == secs as int * 1_000_000 + subsec_micros as int,
{
    (secs as i128) * 1_000_000 + (subsec_micros as i128)
}

} // verus!
