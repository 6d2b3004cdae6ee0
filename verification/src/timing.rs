//! Frame timing.

use vstd::prelude::*;

verus! {

/// The number of nanoseconds in a second.
pub const NANOS_PER_SECOND: u64 = 1_000_000_000;

/// The number of whole frames per second at which frames of the given
/// duration follow each other; 0 for a duration of zero.
pub open spec fn frames_per_second(elapsed_nanos: int) -> int {
    if elapsed_nanos == 0 {
        0
    } else {
        NANOS_PER_SECOND as int / elapsed_nanos
    }
}

/// The frame rate, in whole frames per second, of a frame that took
/// `elapsed_nanos` nanoseconds; 0 for a frame that took no time.
pub fn calculate_fps(elapsed_nanos: u64) -> (fps: u32)
    ensures
        fps == frames_per_second(elapsed_nanos as int),
{
    if elapsed_nanos == 0 {
        0
    } else {
        proof {
            vstd::arithmetic::div_mod::lemma_div_is_ordered_by_denominator(
                NANOS_PER_SECOND as int,
                1,
                elapsed_nanos as int,
            );
        }
        (NANOS_PER_SECOND / elapsed_nanos) as u32
    }
}

} // verus!
