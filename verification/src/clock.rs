use vstd::prelude::*;

verus! {

/// Milliseconds elapsed from an earlier instant to `now`; zero when the
/// clock reads earlier than the stored instant.
pub open spec fn spec_elapsed(earlier: u64, now: u64) -> int {
    if now >= earlier {
        now - earlier
    } else {
        0
    }
}

/// The one clock-delta helper: debounce windows and animation progress are
/// both "elapsed since a stored instant" computations and share it.
pub fn elapsed_ms(earlier: u64, now: u64) -> (r: u64)
    ensures
        r == spec_elapsed(earlier, now),
{
    if now >= earlier {
        now - earlier
    } else {
        0
    }
}

} // verus!
