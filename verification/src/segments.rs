use crate::descriptor::Descriptor;
use vstd::prelude::*;

verus! {

/// The smaller of two lengths.
pub open spec fn min_len(a: nat, b: nat) -> nat {
    if a <= b {
        a
    } else {
        b
    }
}

/// Calls `s2n_quic_core::slice::vectored_copy` with two source segments and
/// two destination segments.
///
/// The call copies as many descriptors as both sides hold, from the start of
/// the source to the start of the destination, across the segment boundaries
/// of either side. It returns that number. The rest of the destination,
/// and the length of each segment, stay as they were.
#[verifier::external_body]
pub(crate) fn copy_segments(
    from_front: &[Descriptor],
    from_wrap: &[Descriptor],
    to_front: &mut [Descriptor],
    to_wrap: &mut [Descriptor],
) -> (count: usize)
    ensures
        count == min_len(
            from_front@.len() + from_wrap@.len(),
            old(to_front)@.len() + old(to_wrap)@.len(),
        ),
        final(to_front)@.len() == old(to_front)@.len(),
        final(to_wrap)@.len() == old(to_wrap)@.len(),
        final(to_front)@ + final(to_wrap)@ == (from_front@ + from_wrap@).take(count as int) + (
        old(to_front)@ + old(to_wrap)@).skip(count as int),
{
    s2n_quic_core::slice::vectored_copy(&[from_front, from_wrap], &mut [to_front, to_wrap])
}

} // verus!
