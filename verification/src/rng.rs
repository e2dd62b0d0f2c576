use vstd::prelude::*;

verus! {

/// Relies on `rand::random_range` over `0..bound` on the thread-local
/// generator: the result is drawn uniformly from that range, so it is always
/// below `bound`. The call panics on an empty range, hence `bound >= 1`.
/// Nothing more is assumed of the draw: every result below `bound` must be
/// handled by the caller.
#[verifier::external_body]
pub(crate) fn draw_below(bound: u64) -> (r: u64)
    requires
        1 <= bound,
    ensures
        r < bound,
{
    rand::random_range(0..bound)
}

} // verus!
