//! Frame geometry: how many bytes each layout needs for one frame.

use vstd::prelude::*;

verus! {

/// What a frame dimension must satisfy: non-negative and even.
pub open spec fn even_dim(n: int) -> bool {
    n >= 0 && n % 2 == 0
}

/// Number of luma samples of a `width` x `height` frame, one byte each.
pub open spec fn luma_len(width: int, height: int) -> int {
    width * height
}

/// Number of samples in one chroma plane of a planar 4:2:0 frame: half the
/// width by half the height.
pub open spec fn chroma_len(width: int, height: int) -> int {
    (width / 2) * (height / 2)
}

/// Bytes of one planar 4:2:0 frame: the luma plane and two chroma planes.
pub open spec fn i420_len(width: int, height: int) -> int {
    width * height * 3 / 2
}

/// Bytes of one 4:2:2 frame, packed or planar: two bytes per pixel.
pub open spec fn yuv422_len(width: int, height: int) -> int {
    width * height * 2
}

/// For even dimensions the three planes of a planar 4:2:0 frame fill it
/// exactly, and a chroma plane is a quarter of the luma plane.
pub proof fn lemma_plane_sizes(width: int, height: int)
    requires
        even_dim(width),
        even_dim(height),
    ensures
        luma_len(width, height) >= 0,
        chroma_len(width, height) >= 0,
        4 * chroma_len(width, height) == luma_len(width, height),
        i420_len(width, height) == luma_len(width, height) + 2 * chroma_len(width, height),
        yuv422_len(width, height) == 2 * luma_len(width, height),
        luma_len(width, height) == 2 * ((width / 2) * height),
        luma_len(width, height) == 2 * (width * (height / 2)),
{
    let a = width / 2;
    let b = height / 2;
    assert(width * height == 4 * (a * b) && a * b >= 0 && width * height == 2 * (a * height)
        && width * height == 2 * (width * b)) by (nonlinear_arith)
        requires
            width == 2 * a,
            height == 2 * b,
            a >= 0,
            b >= 0,
    ;
}

/// Row `row` of a plane `cols` wide and `rows` high, stored row by row,
/// starts at `row * cols` and ends inside the plane.
pub proof fn lemma_row_bound(row: int, cols: int, rows: int)
    requires
        0 <= row < rows,
        0 <= cols,
    ensures
        0 <= row * cols,
        (row + 1) * cols == row * cols + cols,
        row * cols + cols <= cols * rows,
{
    assert(0 <= row * cols && (row + 1) * cols == row * cols + cols && (row + 1) * cols <= cols
        * rows) by (nonlinear_arith)
        requires
            0 <= row < rows,
            0 <= cols,
    ;
}

/// The sample number `row * cols + col` of a row-major plane determines its
/// row and its column.
pub proof fn lemma_row_major_split(row: int, col: int, cols: int)
    requires
        0 <= row,
        0 <= col < cols,
    ensures
        (row * cols + col) / cols == row,
        (row * cols + col) % cols == col,
{
    vstd::arithmetic::div_mod::lemma_fundamental_div_mod_converse(
        row * cols + col,
        cols,
        row,
        col,
    );
}

} // verus!
