//! What the staging buffers hold.

use vstd::prelude::*;

verus! {

/// The contents of a staging buffer of `len` bytes.
pub open spec fn pattern(len: nat) -> Seq<u8> {
    Seq::new(len, |i: int| (i % 251) as u8)
}

/// Fills a staging buffer with a non-trivial pattern: an all-zero buffer can be optimized away
/// by a filesystem or device that detects sparse writes.
pub fn fill_pattern(buf: &mut [u8])
    ensures
        final(buf)@ == pattern(old(buf)@.len()),
{
    let len: usize = buf.len();
    let mut i: usize = 0;
    while i < len
        invariant
            i <= len,
            buf@.len() == len,
            len == old(buf)@.len(),
            forall|j: int| 0 <= j < i ==> #[trigger] buf@[j] == (j % 251) as u8,
        decreases len - i,
    {
        buf[i] = (i % 251) as u8;
        i += 1;
    }
    assert(buf@ =~= pattern(len as nat));
}

/// From two bytes on, the pattern is not all zero.
pub proof fn law_pattern_is_not_all_zero(len: nat)
    requires
        len >= 2,
    ensures
        exists|i: int| 0 <= i < len && #[trigger] pattern(len)[i] != 0,
{
    assert(pattern(len)[1] != 0);
}

/// The pattern has the length of the buffer, and counts up from zero to 250 and over again,
/// to the end.
pub proof fn law_pattern_counts_over_and_over(len: nat, i: int)
    ensures
        pattern(len).len() == len,
        0 <= i < len ==> 0 <= pattern(len)[i] <= 250,
        0 < len ==> pattern(len)[0] == 0,
        0 <= i && i + 1 < len ==> pattern(len)[i + 1] == (if pattern(len)[i] == 250 {
            0
        } else {
            pattern(len)[i] + 1
        }),
{
}

} // verus!
