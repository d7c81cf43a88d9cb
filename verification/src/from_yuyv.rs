//! Packed 4:2:2 (`Y U Y V` per pair of pixels) to planar 4:2:0.

use vstd::prelude::*;
use vstd::arithmetic::div_mod::{lemma_fundamental_div_mod, lemma_mod_bound};
use crate::layout::{
    chroma_len, even_dim, i420_len, lemma_plane_sizes, lemma_row_bound, lemma_row_major_split, luma_len,
    yuv422_len,
};

verus! {

/// Byte offset, in a packed 4:2:2 frame, of the four-byte group `Y U Y V`
/// that holds the pixels at columns `2 * pair` and `2 * pair + 1` of `row`.
pub open spec fn yuyv_group(width: int, row: int, pair: int) -> int {
    4 * (row * (width / 2) + pair)
}

/// The luma plane of a packed 4:2:2 frame: pixel `p`, counted row by row,
/// has its luma sample at byte `2 * p`.
pub open spec fn yuyv_luma(src: Seq<u8>, width: int, height: int) -> Seq<u8> {
    Seq::new(luma_len(width, height) as nat, |p: int| src[2 * p])
}

/// The U plane taken from a packed 4:2:2 frame: chroma row `r` is read from
/// image row `2 * r`, one sample per pair of pixels; odd image rows give
/// nothing.
pub open spec fn yuyv_chroma_u(src: Seq<u8>, width: int, height: int) -> Seq<u8> {
    Seq::new(
        chroma_len(width, height) as nat,
        |k: int| src[yuyv_group(width, 2 * (k / (width / 2)), k % (width / 2)) + 1],
    )
}

/// The V plane taken from a packed 4:2:2 frame, by the same rule as the U
/// plane.
pub open spec fn yuyv_chroma_v(src: Seq<u8>, width: int, height: int) -> Seq<u8> {
    Seq::new(
        chroma_len(width, height) as nat,
        |k: int| src[yuyv_group(width, 2 * (k / (width / 2)), k % (width / 2)) + 3],
    )
}

/// The planar 4:2:0 frame that a packed 4:2:2 frame converts to.
pub open spec fn yuyv_as_i420(src: Seq<u8>, width: int, height: int) -> Seq<u8> {
    yuyv_luma(src, width, height) + yuyv_chroma_u(src, width, height) + yuyv_chroma_v(
        src,
        width,
        height,
    )
}

/// Every chroma sample of the output is read inside the source frame: the
/// group that holds sample `k` ends before byte `2 * width * height`.
pub proof fn lemma_yuyv_group_bound(k: int, width: int, height: int)
    requires
        even_dim(width),
        even_dim(height),
        0 <= k < chroma_len(width, height),
    ensures
        0 <= yuyv_group(width, 2 * (k / (width / 2)), k % (width / 2)),
        yuyv_group(width, 2 * (k / (width / 2)), k % (width / 2)) + 3 < yuv422_len(
            width,
            height,
        ),
{
    lemma_plane_sizes(width, height);
    let cols = width / 2;
    let rows = height / 2;
    assert(cols > 0 && rows > 0) by (nonlinear_arith)
        requires
            0 <= cols,
            0 <= rows,
            0 <= k < cols * rows,
    ;
    lemma_fundamental_div_mod(k, cols);
    lemma_mod_bound(k, cols);
    let r = k / cols;
    let c = k % cols;
    assert(0 <= r < rows && 0 <= (2 * r) * cols && (2 * r) * cols + cols <= 2 * (cols * rows)
        - cols) by (nonlinear_arith)
        requires
            k == cols * r + c,
            0 <= c < cols,
            0 <= k < cols * rows,
    ;
}

/// Converts one packed 4:2:2 frame into planar 4:2:0.
///
/// Every luma sample is copied. Chroma is kept from even rows only; the
/// chroma of odd rows is dropped. Bytes of `i420_data` behind the frame are
/// left as they were.
pub fn yuyv_to_i420(yuyv_data: &[u8], i420_data: &mut [u8], width: u32, height: u32)
    requires
        width % 2 == 0,
        height % 2 == 0,
        yuyv_data@.len() >= yuv422_len(width as int, height as int),
        old(i420_data)@.len() >= i420_len(width as int, height as int),
    ensures
        final(i420_data)@.len() == old(i420_data)@.len(),
        final(i420_data)@.subrange(0, i420_len(width as int, height as int)) == yuyv_as_i420(
            yuyv_data@,
            width as int,
            height as int,
        ),
        final(i420_data)@.subrange(
            i420_len(width as int, height as int),
            old(i420_data)@.len() as int,
        ) == old(i420_data)@.subrange(
            i420_len(width as int, height as int),
            old(i420_data)@.len() as int,
        ),
{
    let w: usize = width as usize;
    let h: usize = height as usize;
    let src_len: usize = yuyv_data.len();
    proof {
        lemma_plane_sizes(w as int, h as int);
        assert(2 * (w * h) <= src_len);
    }
    let y_size: usize = w * h;
    let c_size: usize = y_size / 4;
    let half: usize = w / 2;
    let ghost src = yuyv_data@;
    let ghost before = i420_data@;
    let ghost u_plane = yuyv_chroma_u(src, w as int, h as int);
    let ghost v_plane = yuyv_chroma_v(src, w as int, h as int);

    let mut uv_idx: usize = 0;
    let mut y: usize = 0;
    while y < h
        invariant
            w == width,
            h == height,
            w % 2 == 0,
            h % 2 == 0,
            half == w / 2,
            y_size == w * h,
            c_size == half * (h / 2),
            4 * c_size == y_size,
            src == yuyv_data@,
            src.len() >= 2 * y_size,
            2 * y_size <= usize::MAX,
            u_plane == yuyv_chroma_u(src, w as int, h as int),
            v_plane == yuyv_chroma_v(src, w as int, h as int),
            i420_data@.len() == before.len(),
            before.len() >= y_size + 2 * c_size,
            y <= h,
            uv_idx == ((y + 1) / 2) * half,
            forall|p: int| 0 <= p < y * w ==> i420_data@[p] == src[2 * p],
            forall|k: int| 0 <= k < uv_idx ==> i420_data@[y_size + k] == u_plane[k],
            forall|k: int| 0 <= k < uv_idx ==> i420_data@[y_size + c_size + k] == v_plane[k],
            forall|j: int| y_size + 2 * c_size <= j < before.len() ==> i420_data@[j] == before[j],
        decreases h - y,
    {
        let mut x: usize = 0;
        proof {
            lemma_row_bound(y as int, w as int, h as int);
            lemma_row_bound((y / 2) as int, half as int, (h / 2) as int);
        }
        let row_base: usize = y * w;
        while x < w
            invariant
                w == width,
                h == height,
                w % 2 == 0,
                h % 2 == 0,
                half == w / 2,
                y_size == w * h,
                c_size == half * (h / 2),
                4 * c_size == y_size,
                src == yuyv_data@,
                src.len() >= 2 * y_size,
                2 * y_size <= usize::MAX,
                u_plane == yuyv_chroma_u(src, w as int, h as int),
                v_plane == yuyv_chroma_v(src, w as int, h as int),
                i420_data@.len() == before.len(),
                before.len() >= y_size + 2 * c_size,
                y < h,
                x <= w,
                x % 2 == 0,
                row_base == y * w,
                row_base + w <= y_size,
                y % 2 == 0 ==> uv_idx == (y / 2) * half + x / 2,
                y % 2 == 0 ==> (y / 2) * half + half <= c_size,
                y % 2 == 1 ==> uv_idx == ((y + 1) / 2) * half,
                uv_idx <= c_size,
                forall|p: int| 0 <= p < row_base + x ==> i420_data@[p] == src[2 * p],
                forall|k: int| 0 <= k < uv_idx ==> i420_data@[y_size + k] == u_plane[k],
                forall|k: int|
                    0 <= k < uv_idx ==> i420_data@[y_size + c_size + k] == v_plane[k],
                forall|j: int|
                    y_size + 2 * c_size <= j < before.len() ==> i420_data@[j] == before[j],
            decreases w - x,
        {
            let pixel: usize = row_base + x;
            let yuyv_idx: usize = pixel * 2;
            i420_data[pixel] = yuyv_data[yuyv_idx];
            i420_data[pixel + 1] = yuyv_data[yuyv_idx + 2];
            if y % 2 == 0 {
                proof {
                    lemma_row_major_split((y / 2) as int, (x / 2) as int, half as int);
                    assert(y * half == (y / 2) * half + (y / 2) * half) by (nonlinear_arith)
                        requires
                            y % 2 == 0,
                    ;
                    assert(y * w == y * half + y * half) by (nonlinear_arith)
                        requires
                            w == half + half,
                    ;
                }
                i420_data[y_size + uv_idx] = yuyv_data[yuyv_idx + 1];
                i420_data[y_size + c_size + uv_idx] = yuyv_data[yuyv_idx + 3];
                uv_idx += 1;
            }
            x += 2;
        }
        proof {
            assert((y + 1) * w == y * w + w) by (nonlinear_arith);
            if y % 2 == 0 {
                assert((y / 2 + 1) * half == (y / 2) * half + half) by (nonlinear_arith);
            }
        }
        y += 1;
    }
    proof {
        assert(y * w == y_size) by (nonlinear_arith)
            requires
                y == h,
                y_size == w * h,
        ;
        assert(uv_idx == c_size) by (nonlinear_arith)
            requires
                uv_idx == (h / 2) * half,
                c_size == half * (h / 2),
        ;
        let n = i420_len(w as int, h as int);
        assert(i420_data@.subrange(0, n) =~= yuyv_as_i420(src, w as int, h as int));
        assert(i420_data@.subrange(n, before.len() as int) =~= before.subrange(
            n,
            before.len() as int,
        ));
    }
}

} // verus!
