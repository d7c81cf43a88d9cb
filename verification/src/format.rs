//! The supported source layouts, their names, and the conversion chosen by
//! layout.

use vstd::prelude::*;
use crate::from_i422::{i422_as_i420, i422_chroma_u, i422_chroma_v, i422_luma, i422_to_i420};
use crate::from_nv12::{nv12_as_i420, nv12_chroma_u, nv12_chroma_v, nv12_luma, nv12_to_i420};
use crate::from_yuyv::{
    lemma_yuyv_group_bound, yuyv_as_i420, yuyv_chroma_u, yuyv_chroma_v, yuyv_group, yuyv_luma,
    yuyv_to_i420,
};
use crate::layout::{
    chroma_len, even_dim, i420_len, lemma_plane_sizes, lemma_row_bound, luma_len, yuv422_len,
};

verus! {

/// A source pixel layout.
#[derive(Clone, Copy, Debug, PartialEq, Eq, Structural)]
pub enum PixelFormat {
    /// Packed 4:2:2, `Y U Y V` per pair of pixels.
    Yuyv,
    /// Semi-planar 4:2:0, a luma plane and one plane of `U V` pairs.
    Nv12,
    /// Planar 4:2:2, a luma plane and two chroma planes of full height.
    I422,
}

/// The upper-case form of a text, as `str::to_uppercase` gives it.
pub uninterp spec fn uppercase_of(text: Seq<char>) -> Seq<char>;

/// The layout that an upper-case name stands for: `YUYV`, `NV12`, and
/// `YUV422` or `I422`; no other text names a layout.
pub open spec fn format_named(upper: Seq<char>) -> Option<PixelFormat> {
    if upper == "YUYV"@ {
        Some(PixelFormat::Yuyv)
    } else if upper == "NV12"@ {
        Some(PixelFormat::Nv12)
    } else if upper == "YUV422"@ || upper == "I422"@ {
        Some(PixelFormat::I422)
    } else {
        None
    }
}

/// Bytes of one source frame in the given layout.
pub open spec fn source_len(format: PixelFormat, width: int, height: int) -> int {
    match format {
        PixelFormat::Yuyv => yuv422_len(width, height),
        PixelFormat::Nv12 => i420_len(width, height),
        PixelFormat::I422 => yuv422_len(width, height),
    }
}

/// The planar 4:2:0 frame that a source frame in the given layout converts
/// to.
pub open spec fn as_i420(format: PixelFormat, src: Seq<u8>, width: int, height: int) -> Seq<u8> {
    match format {
        PixelFormat::Yuyv => yuyv_as_i420(src, width, height),
        PixelFormat::Nv12 => nv12_as_i420(src, width, height),
        PixelFormat::I422 => i422_as_i420(src, width, height),
    }
}

/// Where the luma sample of the pixel at (`row`, `col`) lies in a source
/// frame: pixels are stored row by row, two bytes apart in the packed
/// layout and one byte apart in the others.
pub open spec fn source_luma_offset(format: PixelFormat, width: int, row: int, col: int) -> int {
    match format {
        PixelFormat::Yuyv => 2 * (row * width + col),
        PixelFormat::Nv12 => row * width + col,
        PixelFormat::I422 => row * width + col,
    }
}

/// A converted frame has `width * height * 3 / 2` bytes, whatever the
/// source layout and the source bytes.
pub proof fn lemma_as_i420_len(format: PixelFormat, src: Seq<u8>, width: int, height: int)
    requires
        even_dim(width),
        even_dim(height),
    ensures
        as_i420(format, src, width, height).len() == i420_len(width, height),
{
    lemma_plane_sizes(width, height);
}

/// A converted frame depends on the bytes of the source frame alone: two
/// sources that agree on their first `source_len` bytes convert to the same
/// frame, whatever follows in either.
pub proof fn lemma_as_i420_reads_frame_only(
    format: PixelFormat,
    a: Seq<u8>,
    b: Seq<u8>,
    width: int,
    height: int,
)
    requires
        even_dim(width),
        even_dim(height),
        a.len() >= source_len(format, width, height),
        b.len() >= source_len(format, width, height),
        a.subrange(0, source_len(format, width, height)) == b.subrange(
            0,
            source_len(format, width, height),
        ),
    ensures
        as_i420(format, a, width, height) == as_i420(format, b, width, height),
{
    lemma_plane_sizes(width, height);
    let n = source_len(format, width, height);
    let chroma = chroma_len(width, height);
    let cols = width / 2;
    assert forall|i: int| 0 <= i < n implies a[i] == b[i] by {
        assert(a.subrange(0, n)[i] == b.subrange(0, n)[i]);
    }
    match format {
        PixelFormat::Yuyv => {
            assert forall|k: int| 0 <= k < chroma implies 0 <= #[trigger] yuyv_group(
                width,
                2 * (k / cols),
                k % cols,
            ) && yuyv_group(width, 2 * (k / cols), k % cols) + 3 < n by {
                lemma_yuyv_group_bound(k, width, height);
            }
            assert(yuyv_luma(a, width, height) =~= yuyv_luma(b, width, height));
            assert(yuyv_chroma_u(a, width, height) =~= yuyv_chroma_u(b, width, height));
            assert(yuyv_chroma_v(a, width, height) =~= yuyv_chroma_v(b, width, height));
        },
        PixelFormat::Nv12 => {
            assert(nv12_luma(a, width, height) =~= nv12_luma(b, width, height));
            assert(nv12_chroma_u(a, width, height) =~= nv12_chroma_u(b, width, height));
            assert(nv12_chroma_v(a, width, height) =~= nv12_chroma_v(b, width, height));
        },
        PixelFormat::I422 => {
            assert(i422_luma(a, width, height) =~= i422_luma(b, width, height));
            assert(i422_chroma_u(a, width, height) =~= i422_chroma_u(b, width, height));
            assert(i422_chroma_v(a, width, height) =~= i422_chroma_v(b, width, height));
        },
    }
}

/// The luma plane of a converted frame holds, for every pixel, the luma
/// sample that the source frame holds for it.
pub proof fn lemma_luma_copied(
    format: PixelFormat,
    src: Seq<u8>,
    width: int,
    height: int,
    row: int,
    col: int,
)
    requires
        even_dim(width),
        even_dim(height),
        src.len() >= source_len(format, width, height),
        0 <= row < height,
        0 <= col < width,
    ensures
        0 <= row * width + col < luma_len(width, height),
        0 <= source_luma_offset(format, width, row, col) < source_len(format, width, height),
        as_i420(format, src, width, height)[row * width + col] == src[source_luma_offset(
            format,
            width,
            row,
            col,
        )],
{
    lemma_plane_sizes(width, height);
    lemma_row_bound(row, width, height);
}

/// From the semi-planar and the planar layout the luma plane is taken over
/// as it stands: it is the first `width * height` bytes of the source.
pub proof fn lemma_luma_verbatim(format: PixelFormat, src: Seq<u8>, width: int, height: int)
    requires
        even_dim(width),
        even_dim(height),
        src.len() >= source_len(format, width, height),
        format != PixelFormat::Yuyv,
    ensures
        as_i420(format, src, width, height).subrange(0, luma_len(width, height)) == src.subrange(
            0,
            luma_len(width, height),
        ),
{
    lemma_plane_sizes(width, height);
    assert(as_i420(format, src, width, height).subrange(0, luma_len(width, height))
        =~= src.subrange(0, luma_len(width, height)));
}

/// Calls `str::to_uppercase`. Trusted: the result is the upper-case form of
/// `name`, which depends on `name` alone.
#[verifier::external_body]
fn to_uppercase(name: &str) -> (upper: String)
    ensures
        upper@ == uppercase_of(name@),
{
    name.to_uppercase()
}

/// Whether two texts hold the same characters.
fn same_text(a: &str, b: &str) -> (same: bool)
    ensures
        same == (a@ == b@),
{
    let n: usize = a.unicode_len();
    if n != b.unicode_len() {
        return false;
    }
    let mut i: usize = 0;
    while i < n
        invariant
            i <= n,
            n == a@.len(),
            n == b@.len(),
            forall|j: int| 0 <= j < i ==> a@[j] == b@[j],
        decreases n - i,
    {
        if a.get_char(i) != b.get_char(i) {
            return false;
        }
        i += 1;
    }
    assert(a@ =~= b@);
    true
}

impl PixelFormat {
    /// The layout with the given upper-case name, if there is one.
    pub fn from_name(upper: &str) -> (format: Option<PixelFormat>)
        ensures
            format == format_named(upper@),
    {
        if same_text(upper, "YUYV") {
            Some(PixelFormat::Yuyv)
        } else if same_text(upper, "NV12") {
            Some(PixelFormat::Nv12)
        } else if same_text(upper, "YUV422") || same_text(upper, "I422") {
            Some(PixelFormat::I422)
        } else {
            None
        }
    }

    /// The layout that `name` stands for, whatever the case of its letters.
    pub fn parse(name: &str) -> (format: Option<PixelFormat>)
        ensures
            format == format_named(uppercase_of(name@)),
    {
        let upper: String = to_uppercase(name);
        PixelFormat::from_name(upper.as_str())
    }
}

/// Converts one frame from the given layout into planar 4:2:0.
///
/// Writes the first `width * height * 3 / 2` bytes of `dst` and no others,
/// and reads only the source frame.
pub fn convert_frame(format: PixelFormat, src: &[u8], dst: &mut [u8], width: u32, height: u32)
    requires
        width % 2 == 0,
        height % 2 == 0,
        src@.len() >= source_len(format, width as int, height as int),
        old(dst)@.len() >= i420_len(width as int, height as int),
    ensures
        final(dst)@.len() == old(dst)@.len(),
        final(dst)@.subrange(0, i420_len(width as int, height as int)) == as_i420(
            format,
            src@,
            width as int,
            height as int,
        ),
        final(dst)@.subrange(i420_len(width as int, height as int), old(dst)@.len() as int)
            == old(dst)@.subrange(i420_len(width as int, height as int), old(dst)@.len() as int),
{
    match format {
        PixelFormat::Yuyv => yuyv_to_i420(src, dst, width, height),
        PixelFormat::Nv12 => nv12_to_i420(src, dst, width, height),
        PixelFormat::I422 => i422_to_i420(src, dst, width, height),
    }
}

} // verus!
