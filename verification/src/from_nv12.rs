//! Semi-planar 4:2:0 (luma plane, then interleaved `U V` pairs) to planar
//! 4:2:0.

use vstd::prelude::*;
use crate::layout::{chroma_len, i420_len, lemma_plane_sizes, luma_len};
use crate::plane::copy_range;

verus! {

/// The luma plane of a semi-planar frame: its first `width * height` bytes.
pub open spec fn nv12_luma(src: Seq<u8>, width: int, height: int) -> Seq<u8> {
    Seq::new(luma_len(width, height) as nat, |p: int| src[p])
}

/// The U plane taken from a semi-planar frame: the first byte of each pair
/// of the interleaved chroma plane, in order.
pub open spec fn nv12_chroma_u(src: Seq<u8>, width: int, height: int) -> Seq<u8> {
    Seq::new(chroma_len(width, height) as nat, |k: int| src[luma_len(width, height) + 2 * k])
}

/// The V plane taken from a semi-planar frame: the second byte of each pair
/// of the interleaved chroma plane, in order.
pub open spec fn nv12_chroma_v(src: Seq<u8>, width: int, height: int) -> Seq<u8> {
    Seq::new(
        chroma_len(width, height) as nat,
        |k: int| src[luma_len(width, height) + 2 * k + 1],
    )
}

/// The planar 4:2:0 frame that a semi-planar 4:2:0 frame converts to.
pub open spec fn nv12_as_i420(src: Seq<u8>, width: int, height: int) -> Seq<u8> {
    nv12_luma(src, width, height) + nv12_chroma_u(src, width, height) + nv12_chroma_v(
        src,
        width,
        height,
    )
}

/// Converts one semi-planar 4:2:0 frame into planar 4:2:0.
///
/// The luma plane is copied as it is and the interleaved chroma plane is
/// split into a U plane and a V plane; no sample is dropped. Bytes of
/// `i420_data` behind the frame are left as they were.
pub fn nv12_to_i420(nv12_data: &[u8], i420_data: &mut [u8], width: u32, height: u32)
    requires
        width % 2 == 0,
        height % 2 == 0,
        nv12_data@.len() >= i420_len(width as int, height as int),
        old(i420_data)@.len() >= i420_len(width as int, height as int),
    ensures
        final(i420_data)@.len() == old(i420_data)@.len(),
        final(i420_data)@.subrange(0, i420_len(width as int, height as int)) == nv12_as_i420(
            nv12_data@,
            width as int,
            height as int,
        ),
        final(i420_data)@.subrange(
            i420_len(width as int, height as int),
            old(i420_data)@.len() as int,
        ) == old(i420_data)@.subrange(
            i420_len(width as int, height as int),
            old(i420_data)@.len() as int,
        ),
{
    let w: usize = width as usize;
    let h: usize = height as usize;
    let src_len: usize = nv12_data.len();
    proof {
        lemma_plane_sizes(w as int, h as int);
        assert(w * h <= src_len);
    }
    let y_size: usize = w * h;
    let c_size: usize = y_size / 4;
    let uv_size: usize = y_size / 2;
    let ghost src = nv12_data@;
    let ghost before = i420_data@;
    let ghost u_plane = nv12_chroma_u(src, w as int, h as int);
    let ghost v_plane = nv12_chroma_v(src, w as int, h as int);

    copy_range(nv12_data, 0, i420_data, 0, y_size);
    proof {
        assert forall|p: int| 0 <= p < y_size implies i420_data@[p] == src[p] by {
            assert(i420_data@.subrange(0, y_size as int)[p] == i420_data@[p]);
        }
    }

    let mut i: usize = 0;
    while i < uv_size
        invariant
            y_size == luma_len(w as int, h as int),
            c_size == chroma_len(w as int, h as int),
            uv_size == 2 * c_size,
            src == nv12_data@,
            src_len == src.len(),
            src_len >= y_size + uv_size,
            u_plane == nv12_chroma_u(src, w as int, h as int),
            v_plane == nv12_chroma_v(src, w as int, h as int),
            i420_data@.len() == before.len(),
            before.len() >= y_size + 2 * c_size,
            i <= uv_size,
            i % 2 == 0,
            forall|p: int| 0 <= p < y_size ==> i420_data@[p] == src[p],
            forall|k: int| 0 <= k < i / 2 ==> i420_data@[y_size + k] == u_plane[k],
            forall|k: int| 0 <= k < i / 2 ==> i420_data@[y_size + c_size + k] == v_plane[k],
            forall|j: int| y_size + 2 * c_size <= j < before.len() ==> i420_data@[j] == before[j],
        decreases uv_size - i,
    {
        i420_data[y_size + i / 2] = nv12_data[y_size + i];
        i420_data[y_size + c_size + i / 2] = nv12_data[y_size + i + 1];
        i += 2;
    }
    proof {
        let n = i420_len(w as int, h as int);
        assert(i420_data@.subrange(0, n) =~= nv12_as_i420(src, w as int, h as int));
        assert(i420_data@.subrange(n, before.len() as int) =~= before.subrange(
            n,
            before.len() as int,
        ));
    }
}

} // verus!
