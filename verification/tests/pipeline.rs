use to_i420::format::PixelFormat;
use to_i420::pipeline::{
    ConfigError, Pipeline, ReadOutcome, ReadStep, StreamError, WriteOutcome, WriteStep,
};

fn pipeline(format: PixelFormat, width: u32, height: u32) -> Pipeline {
    match Pipeline::new(format, width, height) {
        Ok(p) => p,
        Err(e) => panic!("no pipeline: {:?}", e),
    }
}

#[test]
fn names_are_matched_whatever_their_case() {
    assert_eq!(PixelFormat::parse("YUYV"), Some(PixelFormat::Yuyv));
    assert_eq!(PixelFormat::parse("yuyv"), Some(PixelFormat::Yuyv));
    assert_eq!(PixelFormat::parse("Nv12"), Some(PixelFormat::Nv12));
    assert_eq!(PixelFormat::parse("yuv422"), Some(PixelFormat::I422));
    assert_eq!(PixelFormat::parse("i422"), Some(PixelFormat::I422));
    assert_eq!(PixelFormat::parse("I422"), Some(PixelFormat::I422));
}

#[test]
fn unknown_names_give_no_layout() {
    assert_eq!(PixelFormat::parse(""), None);
    assert_eq!(PixelFormat::parse("RGB24"), None);
    assert_eq!(PixelFormat::parse("YUYV "), None);
    assert_eq!(PixelFormat::parse("NV21"), None);
    assert_eq!(PixelFormat::parse("YUV42"), None);
}

#[test]
fn from_name_takes_upper_case_only() {
    assert_eq!(PixelFormat::from_name("YUYV"), Some(PixelFormat::Yuyv));
    assert_eq!(PixelFormat::from_name("NV12"), Some(PixelFormat::Nv12));
    assert_eq!(PixelFormat::from_name("YUV422"), Some(PixelFormat::I422));
    assert_eq!(PixelFormat::from_name("I422"), Some(PixelFormat::I422));
    assert_eq!(PixelFormat::from_name("yuyv"), None);
    assert_eq!(PixelFormat::from_name("I42"), None);
}

#[test]
fn frame_lengths() {
    let p = pipeline(PixelFormat::Yuyv, 640, 480);
    assert_eq!(p.input_frame_len(), 614_400);
    assert_eq!(p.output_frame_len(), 460_800);
    let p = pipeline(PixelFormat::Nv12, 640, 480);
    assert_eq!(p.input_frame_len(), 460_800);
    assert_eq!(p.output_frame_len(), 460_800);
    let p = pipeline(PixelFormat::I422, 2, 2);
    assert_eq!(p.input_frame_len(), 8);
    assert_eq!(p.output_frame_len(), 6);
    assert_eq!(p.format(), PixelFormat::I422);
    assert_eq!(p.width(), 2);
    assert_eq!(p.height(), 2);
}

#[test]
fn odd_dimensions_are_refused() {
    assert_eq!(Pipeline::new(PixelFormat::Yuyv, 3, 2).err(), Some(ConfigError::OddDimension));
    assert_eq!(Pipeline::new(PixelFormat::Nv12, 2, 5).err(), Some(ConfigError::OddDimension));
    assert_eq!(Pipeline::new(PixelFormat::I422, 1, 0).err(), Some(ConfigError::OddDimension));
}

#[test]
fn empty_frames_are_refused() {
    assert_eq!(Pipeline::new(PixelFormat::Yuyv, 0, 2).err(), Some(ConfigError::EmptyFrame));
    assert_eq!(Pipeline::new(PixelFormat::Nv12, 2, 0).err(), Some(ConfigError::EmptyFrame));
    assert_eq!(Pipeline::new(PixelFormat::I422, 0, 0).err(), Some(ConfigError::EmptyFrame));
}

#[test]
fn frames_that_no_buffer_can_hold_are_refused() {
    let big: u32 = 0xffff_fffe;
    assert_eq!(Pipeline::new(PixelFormat::Yuyv, big, big).err(), Some(ConfigError::FrameTooLarge));
    assert_eq!(Pipeline::new(PixelFormat::I422, big, big).err(), Some(ConfigError::FrameTooLarge));
}

#[test]
fn after_read_decides_by_the_bytes_gathered() {
    let p = pipeline(PixelFormat::Yuyv, 2, 2);
    assert_eq!(p.after_read(ReadOutcome::Filled(8)), ReadStep::Convert);
    assert_eq!(p.after_read(ReadOutcome::Filled(0)), ReadStep::Finish);
    assert_eq!(p.after_read(ReadOutcome::Filled(1)), ReadStep::Fail(StreamError::Truncated));
    assert_eq!(p.after_read(ReadOutcome::Filled(7)), ReadStep::Fail(StreamError::Truncated));
    assert_eq!(p.after_read(ReadOutcome::Failed), ReadStep::Fail(StreamError::Source));
}

#[test]
fn after_write_decides_by_the_outcome() {
    assert_eq!(Pipeline::after_write(WriteOutcome::Written), WriteStep::Continue);
    assert_eq!(Pipeline::after_write(WriteOutcome::SinkClosed), WriteStep::Finish);
    assert_eq!(Pipeline::after_write(WriteOutcome::Failed), WriteStep::Fail(StreamError::Sink));
}

#[test]
fn pipeline_converts_one_frame() {
    let p = pipeline(PixelFormat::Yuyv, 2, 2);
    let src = [16u8, 128, 17, 80, 18, 129, 19, 81];
    let mut dst = [0u8; 6];
    p.convert(&src, &mut dst);
    assert_eq!(dst, [16, 17, 18, 19, 128, 80]);
}

#[test]
fn whole_frames_are_converted_in_order() {
    let p = pipeline(PixelFormat::Yuyv, 2, 2);
    let source = [
        16u8, 128, 17, 80, 18, 129, 19, 81, 1, 2, 3, 4, 5, 6, 7, 8, 100, 110, 101, 120, 102, 111,
        103, 121,
    ];
    let mut sink: Vec<u8> = vec![0xAB];
    assert_eq!(p.convert_stream(&source, &mut sink), Ok(()));
    assert_eq!(
        sink,
        vec![0xAB, 16, 17, 18, 19, 128, 80, 1, 3, 5, 7, 2, 4, 100, 101, 102, 103, 110, 120]
    );
}

#[test]
fn an_empty_source_gives_an_empty_run() {
    let p = pipeline(PixelFormat::Nv12, 2, 2);
    let mut sink: Vec<u8> = Vec::new();
    assert_eq!(p.convert_stream(&[], &mut sink), Ok(()));
    assert!(sink.is_empty());
}

#[test]
fn a_source_that_ends_inside_a_frame_is_truncated() {
    let p = pipeline(PixelFormat::Nv12, 2, 2);
    for extra in 1..6 {
        let mut source = vec![1u8, 2, 3, 4, 9, 7];
        source.extend_from_slice(&vec![0x55u8; extra]);
        let mut sink: Vec<u8> = Vec::new();
        assert_eq!(p.convert_stream(&source, &mut sink), Err(StreamError::Truncated));
        assert_eq!(sink, vec![1, 2, 3, 4, 9, 7]);
    }
    let mut sink: Vec<u8> = Vec::new();
    assert_eq!(p.convert_stream(&[1, 2, 3], &mut sink), Err(StreamError::Truncated));
    assert!(sink.is_empty());
}

#[test]
fn stream_of_planar_frames() {
    let p = pipeline(PixelFormat::I422, 2, 2);
    let source = [1u8, 2, 3, 4, 50, 51, 60, 61, 5, 6, 7, 8, 70, 71, 80, 81];
    let mut sink: Vec<u8> = Vec::new();
    assert_eq!(p.convert_stream(&source, &mut sink), Ok(()));
    assert_eq!(sink, vec![1, 2, 3, 4, 50, 60, 5, 6, 7, 8, 70, 80]);
}

// Upper-casing follows Unicode: the dotless small i has the plain capital I
// as its upper-case form.
#[test]
fn names_are_upper_cased_by_unicode_rules() {
    assert_eq!(PixelFormat::parse("\u{131}422"), Some(PixelFormat::I422));
    assert_eq!(PixelFormat::from_name("\u{131}422"), None);
}
