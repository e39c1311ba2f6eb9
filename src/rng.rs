use vstd::prelude::*;

verus! {

#[verifier::external_type_specification]
#[verifier::external_body]
pub struct ExRand32(oorandom::Rand32);

/// Relies on oorandom::Rand32::new: seeds the generator. Nothing is promised
/// of the draws that follow, beyond what `rand_range` states.
pub assume_specification[ oorandom::Rand32::new ](seed: u64) -> oorandom::Rand32;

/// Relies on oorandom::Rand32::rand_range: for a non-empty range it scales
/// a 32-bit draw by the width of the range and adds the start, so the result
/// lies in the range. An empty range fails its debug assertion.
pub assume_specification[ oorandom::Rand32::rand_range ](
    rng: &mut oorandom::Rand32,
    range: core::ops::Range<u32>,
) -> (r: u32)
    requires
        range.start < range.end,
    ensures
        range.start <= r < range.end,
;

} // verus!
