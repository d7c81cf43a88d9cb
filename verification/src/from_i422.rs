//! Planar 4:2:2 (full-height chroma planes) to planar 4:2:0.

use vstd::prelude::*;
use crate::layout::{
    chroma_len, even_dim, i420_len, lemma_plane_sizes, lemma_row_bound, luma_len, yuv422_len,
};
use crate::plane::copy_range;

verus! {

/// The luma plane of a planar 4:2:2 frame: its first `width * height` bytes.
pub open spec fn i422_luma(src: Seq<u8>, width: int, height: int) -> Seq<u8> {
    Seq::new(luma_len(width, height) as nat, |p: int| src[p])
}

/// Where the U plane of a planar 4:2:2 frame starts: behind the luma plane.
pub open spec fn i422_u_start(width: int, height: int) -> int {
    luma_len(width, height)
}

/// Where the V plane of a planar 4:2:2 frame starts: behind the U plane,
/// which has `height` rows of `width / 2` samples.
pub open spec fn i422_v_start(width: int, height: int) -> int {
    luma_len(width, height) + (width / 2) * height
}

/// The U plane taken from a planar 4:2:2 frame. The source U plane has
/// `height` rows of `width / 2` samples; output chroma row `r` is source
/// chroma row `r`, so the output plane is the first `height / 2` rows of the
/// source plane, and the rows behind them are not read.
pub open spec fn i422_chroma_u(src: Seq<u8>, width: int, height: int) -> Seq<u8> {
    Seq::new(chroma_len(width, height) as nat, |k: int| src[i422_u_start(width, height) + k])
}

/// The V plane taken from a planar 4:2:2 frame, by the same rule as the U
/// plane.
pub open spec fn i422_chroma_v(src: Seq<u8>, width: int, height: int) -> Seq<u8> {
    Seq::new(chroma_len(width, height) as nat, |k: int| src[i422_v_start(width, height) + k])
}

/// The planar 4:2:0 frame that a planar 4:2:2 frame converts to.
pub open spec fn i422_as_i420(src: Seq<u8>, width: int, height: int) -> Seq<u8> {
    i422_luma(src, width, height) + i422_chroma_u(src, width, height) + i422_chroma_v(
        src,
        width,
        height,
    )
}

/// Converts one planar 4:2:2 frame into planar 4:2:0.
///
/// The luma plane is copied as it is. Each output chroma plane is the first
/// `height / 2` rows of the source chroma plane: output row `r` is source
/// row `r`, and source rows from `height / 2` on are not read. Bytes of
/// `i420_data` behind the frame are left as they were.
pub fn i422_to_i420(i422_data: &[u8], i420_data: &mut [u8], width: u32, height: u32)
    requires
        width % 2 == 0,
        height % 2 == 0,
        i422_data@.len() >= yuv422_len(width as int, height as int),
        old(i420_data)@.len() >= i420_len(width as int, height as int),
    ensures
        final(i420_data)@.len() == old(i420_data)@.len(),
        final(i420_data)@.subrange(0, i420_len(width as int, height as int)) == i422_as_i420(
            i422_data@,
            width as int,
            height as int,
        ),
        final(i420_data)@.subrange(
            i420_len(width as int, height as int),
            old(i420_data)@.len() as int,
        ) == old(i420_data)@.subrange(
            i420_len(width as int, height as int),
            old(i420_data)@.len() as int,
        ),
{
    let w: usize = width as usize;
    let h: usize = height as usize;
    let src_len: usize = i422_data.len();
    proof {
        lemma_plane_sizes(w as int, h as int);
        assert(2 * (w * h) <= src_len);
    }
    let y_size: usize = w * h;
    let c_size: usize = y_size / 4;
    let ghost src = i422_data@;
    let ghost before = i420_data@;
    let ghost u_plane = i422_chroma_u(src, w as int, h as int);
    let ghost v_plane = i422_chroma_v(src, w as int, h as int);

    copy_range(i422_data, 0, i420_data, 0, y_size);
    let ghost with_luma = i420_data@;
    copy_range(i422_data, y_size, i420_data, y_size, c_size);
    let ghost with_u = i420_data@;
    copy_range(i422_data, y_size + y_size / 2, i420_data, y_size + c_size, c_size);

    proof {
        let n = i420_len(w as int, h as int);
        let after = i420_data@;
        assert forall|p: int| 0 <= p < y_size implies after[p] == src[p] by {
            assert(with_luma.subrange(0, y_size as int)[p] == with_luma[p]);
        }
        assert forall|k: int| 0 <= k < c_size implies after[y_size + k] == u_plane[k] by {
            assert(with_u.subrange(y_size as int, y_size + c_size)[k] == with_u[y_size + k]);
        }
        assert forall|k: int| 0 <= k < c_size implies after[y_size + c_size + k]
            == v_plane[k] by {
            assert(after.subrange(y_size + c_size, y_size + c_size + c_size)[k] == after[y_size
                + c_size + k]);
        }
        assert(after.subrange(0, n) =~= i422_as_i420(src, w as int, h as int));
        assert(after.subrange(n, before.len() as int) =~= before.subrange(
            n,
            before.len() as int,
        ));
    }
}

/// The sample at row `row` and column `col` of an output chroma plane is the
/// sample at the same row and column of the source chroma plane.
pub proof fn lemma_i422_chroma_rows(src: Seq<u8>, width: int, height: int, row: int, col: int)
    requires
        even_dim(width),
        even_dim(height),
        0 <= row < height / 2,
        0 <= col < width / 2,
    ensures
        0 <= row * (width / 2) + col < chroma_len(width, height),
        i422_as_i420(src, width, height)[luma_len(width, height) + row * (width / 2) + col]
            == src[i422_u_start(width, height) + row * (width / 2) + col],
        i422_as_i420(src, width, height)[luma_len(width, height) + chroma_len(width, height)
            + row * (width / 2) + col] == src[i422_v_start(width, height) + row * (width / 2)
            + col],
{
    lemma_plane_sizes(width, height);
    lemma_row_bound(row, width / 2, height / 2);
}

/// The converted frame does not depend on the source chroma rows from
/// `height / 2` on: two sources that agree on the luma plane and on the
/// first `height / 2` rows of each chroma plane convert to the same frame.
pub proof fn lemma_i422_ignores_lower_chroma_rows(
    a: Seq<u8>,
    b: Seq<u8>,
    width: int,
    height: int,
)
    requires
        even_dim(width),
        even_dim(height),
        a.len() >= yuv422_len(width, height),
        b.len() >= yuv422_len(width, height),
        a.subrange(0, luma_len(width, height)) == b.subrange(0, luma_len(width, height)),
        a.subrange(
            i422_u_start(width, height),
            i422_u_start(width, height) + chroma_len(width, height),
        ) == b.subrange(
            i422_u_start(width, height),
            i422_u_start(width, height) + chroma_len(width, height),
        ),
        a.subrange(
            i422_v_start(width, height),
            i422_v_start(width, height) + chroma_len(width, height),
        ) == b.subrange(
            i422_v_start(width, height),
            i422_v_start(width, height) + chroma_len(width, height),
        ),
    ensures
        i422_as_i420(a, width, height) == i422_as_i420(b, width, height),
{
    lemma_plane_sizes(width, height);
    let luma = luma_len(width, height);
    let chroma = chroma_len(width, height);
    let u = i422_u_start(width, height);
    let v = i422_v_start(width, height);
    assert(v == luma + 2 * chroma);
    assert forall|p: int| 0 <= p < luma implies a[p] == b[p] by {
        assert(a.subrange(0, luma)[p] == b.subrange(0, luma)[p]);
    }
    assert forall|j: int| u <= j < u + chroma implies a[j] == b[j] by {
        assert(a.subrange(u, u + chroma)[j - u] == b.subrange(u, u + chroma)[j - u]);
    }
    assert forall|j: int| v <= j < v + chroma implies a[j] == b[j] by {
        assert(a.subrange(v, v + chroma)[j - v] == b.subrange(v, v + chroma)[j - v]);
    }
    assert(i422_luma(a, width, height) =~= i422_luma(b, width, height));
    assert(i422_chroma_u(a, width, height) =~= i422_chroma_u(b, width, height));
    assert(i422_chroma_v(a, width, height) =~= i422_chroma_v(b, width, height));
}

} // verus!
