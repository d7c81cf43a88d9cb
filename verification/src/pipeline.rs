//! The streaming driver's decisions: frame sizes, what to do after each read
//! and each write, and a whole run over a source held in memory.

use vstd::prelude::*;
use crate::format::{as_i420, convert_frame, lemma_as_i420_len, source_len, PixelFormat};
use crate::layout::{even_dim, i420_len, lemma_plane_sizes};
use vstd::arithmetic::div_mod::lemma_fundamental_div_mod_converse;
use vstd::slice::slice_subrange;

verus! {

/// Why a pipeline cannot be set up for a frame geometry.
#[derive(Clone, Copy, Debug, PartialEq, Eq, Structural)]
pub enum ConfigError {
    /// The width or the height is odd.
    OddDimension,
    /// The width or the height is zero.
    EmptyFrame,
    /// One source frame has more bytes than a buffer can hold.
    FrameTooLarge,
}

/// Why a run ended in failure.
#[derive(Clone, Copy, Debug, PartialEq, Eq, Structural)]
pub enum StreamError {
    /// The source ended inside a frame.
    Truncated,
    /// Reading from the source failed.
    Source,
    /// Writing to the sink failed, other than by the sink being closed.
    Sink,
}

/// How an attempt to read one frame from the source ended.
#[derive(Clone, Copy, Debug, PartialEq, Eq, Structural)]
pub enum ReadOutcome {
    /// This many bytes were gathered; fewer than a frame only when the
    /// source has ended.
    Filled(usize),
    /// The source reported an error.
    Failed,
}

/// What follows an attempt to read one frame.
#[derive(Clone, Copy, Debug, PartialEq, Eq, Structural)]
pub enum ReadStep {
    /// A whole frame is there: convert it and write the result.
    Convert,
    /// The source ended on a frame boundary: the run is complete.
    Finish,
    /// The run ends with this error, and nothing more is written.
    Fail(StreamError),
}

/// How an attempt to write one converted frame to the sink ended.
#[derive(Clone, Copy, Debug, PartialEq, Eq, Structural)]
pub enum WriteOutcome {
    /// The whole frame was written.
    Written,
    /// The sink takes no more data: its reader is gone.
    SinkClosed,
    /// The sink reported another error.
    Failed,
}

/// What follows an attempt to write one converted frame.
#[derive(Clone, Copy, Debug, PartialEq, Eq, Structural)]
pub enum WriteStep {
    /// Read the next frame.
    Continue,
    /// The sink was closed: the run is complete.
    Finish,
    /// The run ends with this error.
    Fail(StreamError),
}

/// Why no pipeline can be set up for the given layout and dimensions, or
/// `None` where one can: both dimensions are even and positive, and a source
/// frame fits in a buffer.
pub open spec fn geometry_error(format: PixelFormat, width: int, height: int) -> Option<
    ConfigError,
> {
    if width % 2 != 0 || height % 2 != 0 {
        Some(ConfigError::OddDimension)
    } else if width == 0 || height == 0 {
        Some(ConfigError::EmptyFrame)
    } else if source_len(format, width, height) > usize::MAX {
        Some(ConfigError::FrameTooLarge)
    } else {
        None
    }
}

/// What follows a read, for a source frame of `frame_len` bytes.
pub open spec fn read_step(outcome: ReadOutcome, frame_len: int) -> ReadStep {
    match outcome {
        ReadOutcome::Failed => ReadStep::Fail(StreamError::Source),
        ReadOutcome::Filled(n) => if n == 0 {
            ReadStep::Finish
        } else if n < frame_len {
            ReadStep::Fail(StreamError::Truncated)
        } else {
            ReadStep::Convert
        },
    }
}

/// What follows a write.
pub open spec fn write_step(outcome: WriteOutcome) -> WriteStep {
    match outcome {
        WriteOutcome::Written => WriteStep::Continue,
        WriteOutcome::SinkClosed => WriteStep::Finish,
        WriteOutcome::Failed => WriteStep::Fail(StreamError::Sink),
    }
}

/// The first `count` frames of `source`, each converted to planar 4:2:0, one
/// behind the other.
pub open spec fn converted_frames(
    format: PixelFormat,
    source: Seq<u8>,
    width: int,
    height: int,
    count: nat,
) -> Seq<u8>
    decreases count,
{
    if count == 0 {
        Seq::empty()
    } else {
        let n = source_len(format, width, height);
        converted_frames(format, source, width, height, (count - 1) as nat) + as_i420(
            format,
            source.subrange((count - 1) * n, count * n),
            width,
            height,
        )
    }
}

/// A conversion bound to one layout and one frame geometry.
pub struct Pipeline {
    format: PixelFormat,
    width: u32,
    height: u32,
    input_len: usize,
    output_len: usize,
}

impl Pipeline {
    #[verifier::type_invariant]
    spec fn inv(self) -> bool {
        &&& geometry_error(self.format, self.width as int, self.height as int) is None
        &&& self.input_len == source_len(self.format, self.width as int, self.height as int)
        &&& self.output_len == i420_len(self.width as int, self.height as int)
    }

    /// The source layout.
    pub closed spec fn pixel_format(self) -> PixelFormat {
        self.format
    }

    /// The frame width in pixels.
    pub closed spec fn frame_width(self) -> int {
        self.width as int
    }

    /// The frame height in pixels.
    pub closed spec fn frame_height(self) -> int {
        self.height as int
    }

    /// Bytes of one source frame.
    pub open spec fn input_len(self) -> int {
        source_len(self.pixel_format(), self.frame_width(), self.frame_height())
    }

    /// Bytes of one converted frame.
    pub open spec fn output_len(self) -> int {
        i420_len(self.frame_width(), self.frame_height())
    }

    /// How many whole frames `source` holds.
    pub open spec fn whole_frames(self, source: Seq<u8>) -> nat {
        ((source.len() as int) / self.input_len()) as nat
    }

    /// How many bytes of an incomplete frame `source` ends with.
    pub open spec fn leftover(self, source: Seq<u8>) -> int {
        (source.len() as int) % self.input_len()
    }

    /// Binds the conversion from `format` to a frame geometry, or says why
    /// the geometry is not accepted.
    pub fn new(format: PixelFormat, width: u32, height: u32) -> (made: Result<
        Pipeline,
        ConfigError,
    >)
        ensures
            match made {
                Ok(pipeline) => {
                    &&& geometry_error(format, width as int, height as int) is None
                    &&& pipeline.pixel_format() == format
                    &&& pipeline.frame_width() == width
                    &&& pipeline.frame_height() == height
                },
                Err(e) => geometry_error(format, width as int, height as int) == Some(e),
            },
    {
        if width % 2 != 0 || height % 2 != 0 {
            return Err(ConfigError::OddDimension);
        }
        if width == 0 || height == 0 {
            return Err(ConfigError::EmptyFrame);
        }
        proof {
            lemma_plane_sizes(width as int, height as int);
            assert(width * height <= 0xffff_ffff * 0xffff_ffff) by (nonlinear_arith)
                requires
                    0 <= width <= 0xffff_ffff,
                    0 <= height <= 0xffff_ffff,
            ;
        }
        let pixels: u128 = (width as u128) * (height as u128);
        let output: u128 = pixels * 3 / 2;
        let input: u128 = match format {
            PixelFormat::Yuyv => pixels * 2,
            PixelFormat::Nv12 => output,
            PixelFormat::I422 => pixels * 2,
        };
        if input > usize::MAX as u128 {
            return Err(ConfigError::FrameTooLarge);
        }
        Ok(Pipeline { format, width, height, input_len: input as usize, output_len: output as usize })
    }

    /// The source layout.
    pub fn format(&self) -> (format: PixelFormat)
        ensures
            format == self.pixel_format(),
    {
        self.format
    }

    /// The frame width in pixels: even and positive.
    pub fn width(&self) -> (width: u32)
        ensures
            width == self.frame_width(),
            width > 0,
            width % 2 == 0,
    {
        proof {
            use_type_invariant(self);
        }
        self.width
    }

    /// The frame height in pixels: even and positive.
    pub fn height(&self) -> (height: u32)
        ensures
            height == self.frame_height(),
            height > 0,
            height % 2 == 0,
    {
        proof {
            use_type_invariant(self);
        }
        self.height
    }

    /// Bytes of one source frame: never zero.
    pub fn input_frame_len(&self) -> (len: usize)
        ensures
            len == self.input_len(),
            len > 0,
    {
        proof {
            use_type_invariant(self);
            lemma_frame_not_empty(self.width as int, self.height as int);
        }
        self.input_len
    }

    /// Bytes of one converted frame: never zero.
    pub fn output_frame_len(&self) -> (len: usize)
        ensures
            len == self.output_len(),
            len > 0,
    {
        proof {
            use_type_invariant(self);
            lemma_frame_not_empty(self.width as int, self.height as int);
        }
        self.output_len
    }

    /// Converts one source frame into `output`.
    ///
    /// Writes the first `output_len` bytes of `output` and no others.
    pub fn convert(&self, input: &[u8], output: &mut [u8])
        requires
            input@.len() >= self.input_len(),
            old(output)@.len() >= self.output_len(),
        ensures
            final(output)@.len() == old(output)@.len(),
            final(output)@.subrange(0, self.output_len()) == as_i420(
                self.pixel_format(),
                input@,
                self.frame_width(),
                self.frame_height(),
            ),
            final(output)@.subrange(self.output_len(), old(output)@.len() as int)
                == old(output)@.subrange(self.output_len(), old(output)@.len() as int),
    {
        proof {
            use_type_invariant(self);
        }
        convert_frame(self.format, input, output, self.width, self.height)
    }

    /// Decides what follows an attempt to read one source frame.
    pub fn after_read(&self, outcome: ReadOutcome) -> (step: ReadStep)
        ensures
            step == read_step(outcome, self.input_len()),
    {
        proof {
            use_type_invariant(self);
        }
        match outcome {
            ReadOutcome::Failed => ReadStep::Fail(StreamError::Source),
            ReadOutcome::Filled(n) => {
                if n == 0 {
                    ReadStep::Finish
                } else if n < self.input_len {
                    ReadStep::Fail(StreamError::Truncated)
                } else {
                    ReadStep::Convert
                }
            },
        }
    }

    /// Decides what follows an attempt to write one converted frame.
    pub fn after_write(outcome: WriteOutcome) -> (step: WriteStep)
        ensures
            step == write_step(outcome),
    {
        match outcome {
            WriteOutcome::Written => WriteStep::Continue,
            WriteOutcome::SinkClosed => WriteStep::Finish,
            WriteOutcome::Failed => WriteStep::Fail(StreamError::Sink),
        }
    }

    /// Runs the conversion over a source held in memory and appends every
    /// converted frame to `sink`.
    ///
    /// All whole frames of `source` are converted, in order. The run
    /// succeeds where `source` ends on a frame boundary; where bytes of an
    /// incomplete frame are left over, it fails and writes nothing for them.
    pub fn convert_stream(&self, source: &[u8], sink: &mut Vec<u8>) -> (run: Result<
        (),
        StreamError,
    >)
        ensures
            final(sink)@ == old(sink)@ + converted_frames(
                self.pixel_format(),
                source@,
                self.frame_width(),
                self.frame_height(),
                self.whole_frames(source@),
            ),
            self.leftover(source@) == 0 ==> run is Ok,
            self.leftover(source@) != 0 ==> run == Err::<(), StreamError>(StreamError::Truncated),
    {
        let frame_len: usize = self.input_frame_len();
        let out_len: usize = self.output_frame_len();
        let total: usize = source.len();
        let mut frame: Vec<u8> = vec![0u8; out_len];
        let mut pos: usize = 0;
        let ghost mut done: nat = 0;
        let ghost start = sink@;
        loop
            invariant
                frame_len == self.input_len(),
                frame_len > 0,
                out_len == self.output_len(),
                total == source@.len(),
                frame@.len() == out_len,
                pos <= total,
                pos == done * frame_len,
                start == old(sink)@,
                sink@ == start + converted_frames(
                    self.pixel_format(),
                    source@,
                    self.frame_width(),
                    self.frame_height(),
                    done,
                ),
            decreases total - pos,
        {
            let rest: usize = total - pos;
            let filled: usize = if rest < frame_len {
                rest
            } else {
                frame_len
            };
            proof {
                if rest < frame_len {
                    lemma_fundamental_div_mod_converse(
                        total as int,
                        frame_len as int,
                        done as int,
                        rest as int,
                    );
                }
            }
            match self.after_read(ReadOutcome::Filled(filled)) {
                ReadStep::Convert => {
                    let input = slice_subrange(source, pos, pos + frame_len);
                    self.convert(input, frame.as_mut_slice());
                    let ghost written = sink@;
                    sink.extend_from_slice(frame.as_slice());
                    proof {
                        assert((done + 1) * frame_len == done * frame_len + frame_len)
                            by (nonlinear_arith);
                        assert(frame@.subrange(0, out_len as int) =~= frame@);
                        assert(sink@ =~= written + frame@);
                        assert(sink@ =~= start + converted_frames(
                            self.pixel_format(),
                            source@,
                            self.frame_width(),
                            self.frame_height(),
                            done + 1,
                        ));
                        done = done + 1;
                    }
                    pos += frame_len;
                },
                ReadStep::Finish => {
                    return Ok(());
                },
                ReadStep::Fail(e) => {
                    return Err(e);
                },
            }
        }
    }
}

/// `count` converted frames take `count` times the bytes of one.
pub proof fn lemma_converted_frames_len(
    format: PixelFormat,
    source: Seq<u8>,
    width: int,
    height: int,
    count: nat,
)
    requires
        even_dim(width),
        even_dim(height),
    ensures
        converted_frames(format, source, width, height, count).len() == count * i420_len(
            width,
            height,
        ),
    decreases count,
{
    if count == 0 {
        assert(count * i420_len(width, height) == 0) by (nonlinear_arith)
            requires
                count == 0,
        ;
    } else {
        let n = source_len(format, width, height);
        lemma_converted_frames_len(format, source, width, height, (count - 1) as nat);
        lemma_as_i420_len(format, source.subrange((count - 1) * n, count * n), width, height);
        assert(count * i420_len(width, height) == (count - 1) * i420_len(width, height)
            + i420_len(width, height)) by (nonlinear_arith);
    }
}

/// A frame with positive even dimensions has at least one byte in every
/// layout.
pub proof fn lemma_frame_not_empty(width: int, height: int)
    requires
        width > 0,
        height > 0,
        width % 2 == 0,
        height % 2 == 0,
    ensures
        i420_len(width, height) > 0,
        forall|format: PixelFormat| source_len(format, width, height) > 0,
        forall|format: PixelFormat|
            i420_len(width, height) <= #[trigger] source_len(format, width, height),
{
    lemma_plane_sizes(width, height);
    assert(width * height > 0) by (nonlinear_arith)
        requires
            width > 0,
            height > 0,
    ;
}

} // verus!
