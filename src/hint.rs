use vstd::prelude::*;

verus! {

/// Largest number of elements that a decoder reserves room for ahead of time.
pub const HINT_CEILING: usize = 4096;

/// What a reported element count is worth for pre-reservation: the hint, or
/// zero when absent, never more than `HINT_CEILING`.
pub open spec fn bounded_hint(hint: Option<usize>) -> nat {
    let h: nat = match hint {
        Some(n) => n as nat,
        None => 0,
    };
    if h < HINT_CEILING as nat { h } else { HINT_CEILING as nat }
}

/// Clamps an untrusted size hint before it is used to reserve storage.
pub fn cautious_size_hint(hint: Option<usize>) -> (r: usize)
    ensures
        r as nat == bounded_hint(hint),
        r <= HINT_CEILING,
{
    let h: usize = match hint {
        Some(n) => n,
        None => 0,
    };
    if h < HINT_CEILING { h } else { HINT_CEILING }
}

} // verus!
