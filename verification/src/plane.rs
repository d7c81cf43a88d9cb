//! Copies between byte planes, shared by the converters.

use vstd::prelude::*;

verus! {

/// Copies `n` bytes of `src`, from `src_start` on, over the `n` bytes of
/// `dst` that start at `dst_start`.
pub(crate) fn copy_range(
    src: &[u8],
    src_start: usize,
    dst: &mut [u8],
    dst_start: usize,
    n: usize,
)
    requires
        src_start + n <= src@.len(),
        dst_start + n <= old(dst)@.len(),
    ensures
        final(dst)@.len() == old(dst)@.len(),
        final(dst)@.subrange(dst_start as int, dst_start + n) == src@.subrange(
            src_start as int,
            src_start + n,
        ),
        forall|j: int|
            0 <= j < old(dst)@.len() && !(dst_start <= j < dst_start + n) ==> final(dst)@[j]
                == old(dst)@[j],
{
    let ghost before = dst@;
    let src_len: usize = src.len();
    let dst_len: usize = dst.len();
    let mut i: usize = 0;
    while i < n
        invariant
            i <= n,
            src_len == src@.len(),
            dst_len == before.len(),
            src_start + n <= src_len,
            dst_start + n <= dst_len,
            dst@.len() == before.len(),
            forall|j: int| dst_start <= j < dst_start + i ==> dst@[j] == src@[src_start + (j
                - dst_start)],
            forall|j: int|
                0 <= j < before.len() && !(dst_start <= j < dst_start + n) ==> dst@[j]
                    == before[j],
        decreases n - i,
    {
        dst[dst_start + i] = src[src_start + i];
        i += 1;
    }
    proof {
        assert(dst@.subrange(dst_start as int, dst_start + n) =~= src@.subrange(
            src_start as int,
            src_start + n,
        ));
    }
}

} // verus!
