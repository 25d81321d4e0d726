use textart::layout::{grid_columns, plan_frame, ConfigError, FrameGeometry};
use textart::pipeline::{Directive, Event, Phase, PipelineError, Pull, Source, Transcoder};
use textart::streams::{MediaKind, StreamMap};
use textart::timing::{PacketTiming, Timebase};

fn tb(num: i32, den: i32) -> Timebase {
    Timebase { num, den }
}

fn timing(pts: i64) -> PacketTiming {
    PacketTiming { pts: Some(pts), dts: Some(pts), duration: 1 }
}

/// Stream 0 video (1/25), stream 1 audio (1/48000), stream 2 unknown;
/// written to Matroska.
fn transcoder() -> Transcoder {
    let kinds = vec![MediaKind::Video, MediaKind::Audio, MediaKind::Unknown];
    let tbs = vec![tb(1, 25), tb(1, 48000), tb(0, 1)];
    let map = StreamMap::build(&kinds, &tbs, 0, true);
    Transcoder::new(map, 0, tb(1, 25), tb(1, 1000))
}

#[test]
fn passthrough_and_dropped_packets() {
    let mut t = transcoder();
    assert_eq!(t.awaiting(), Source::Input);
    assert_eq!(
        t.step(Event::Packet { stream: 1, timing: timing(48000) }),
        Directive::Write { stream: 1, timing: PacketTiming { pts: Some(1000), dts: Some(1000), duration: 0 } }
    );
    assert_eq!(t.step(Event::Packet { stream: 2, timing: timing(5) }), Directive::Discard);
    assert_eq!(t.awaiting(), Source::Input);
}

#[test]
fn video_packet_drains_decoder_then_encoder() {
    let mut t = transcoder();
    assert_eq!(t.step(Event::Packet { stream: 0, timing: timing(0) }), Directive::Decode);
    assert_eq!(t.awaiting(), Source::Decoder);
    assert_eq!(t.step(Event::Decoded(Pull::Produced(Some(4)))), Directive::Encode { pts: Some(4) });
    assert_eq!(t.step(Event::Decoded(Pull::NotReady)), Directive::Continue);
    assert_eq!(t.awaiting(), Source::Encoder);
    assert_eq!(
        t.step(Event::Encoded(Pull::Produced(timing(4)))),
        Directive::Write { stream: 0, timing: PacketTiming { pts: Some(160), dts: Some(160), duration: 40 } }
    );
    assert_eq!(t.step(Event::Encoded(Pull::NotReady)), Directive::Continue);
    assert_eq!(t.awaiting(), Source::Input);
}

#[test]
fn end_of_stream_yields_buffered_frames_before_done() {
    let mut t = transcoder();
    assert_eq!(t.step(Event::InputEnd), Directive::FinishDecoding);
    assert_eq!(t.phase, Phase::Decoding { flushing: true });
    for pts in [7i64, 8, 9] {
        assert_eq!(t.step(Event::Decoded(Pull::Produced(Some(pts)))), Directive::Encode { pts: Some(pts) });
        assert_eq!(t.awaiting(), Source::Decoder);
    }
    assert_eq!(t.step(Event::Decoded(Pull::EndOfStream)), Directive::FinishEncoding);
    assert_eq!(t.awaiting(), Source::Encoder);
    assert!(matches!(t.step(Event::Encoded(Pull::Produced(timing(7)))), Directive::Write { stream: 0, .. }));
    assert_eq!(t.awaiting(), Source::Encoder);
    assert_eq!(t.step(Event::Encoded(Pull::EndOfStream)), Directive::WriteTrailer);
    assert_eq!(t.phase, Phase::Done);
    assert_eq!(t.awaiting(), Source::Finished);
}

#[test]
fn pipeline_errors() {
    let mut t = transcoder();
    assert_eq!(t.step(Event::Packet { stream: 3, timing: timing(0) }), Directive::Fail(PipelineError::UnknownStream));
    assert_eq!(t.phase, Phase::Failed);

    let mut t = transcoder();
    assert_eq!(t.step(Event::Decoded(Pull::NotReady)), Directive::Fail(PipelineError::OutOfTurn));

    let mut t = transcoder();
    t.step(Event::InputEnd);
    assert_eq!(t.step(Event::Decoded(Pull::NotReady)), Directive::Fail(PipelineError::DecoderStalled));

    let mut t = transcoder();
    t.step(Event::InputEnd);
    t.step(Event::Decoded(Pull::EndOfStream));
    assert_eq!(t.step(Event::Encoded(Pull::NotReady)), Directive::Fail(PipelineError::EncoderStalled));

    let mut t = transcoder();
    let huge = PacketTiming { pts: Some(i64::MAX), dts: None, duration: 0 };
    t.step(Event::Packet { stream: 0, timing: timing(0) });
    t.step(Event::Decoded(Pull::NotReady));
    assert_eq!(t.step(Event::Encoded(Pull::Produced(huge))), Directive::Fail(PipelineError::TimestampOverflow));

    let map = StreamMap::build(&vec![MediaKind::Video, MediaKind::Audio], &vec![tb(1, 25), tb(0, 1)], 0, false);
    let mut t = Transcoder::new(map, 0, tb(1, 25), tb(1, 25));
    assert_eq!(t.step(Event::Packet { stream: 1, timing: timing(0) }), Directive::Fail(PipelineError::InvalidTimebase));
}

#[test]
fn frame_plan_keeps_aspect_and_even_sizes() {
    assert_eq!(plan_frame(1920, 1080, 1080, 60), Ok(FrameGeometry { dst_w: 1920, dst_h: 1080, cell_h: 18 }));
    // 721 * 1280 / 720 = 1281 -> 1280; 721 -> 720
    assert_eq!(plan_frame(1280, 720, 721, 60), Ok(FrameGeometry { dst_w: 1280, dst_h: 720, cell_h: 12 }));
}

#[test]
fn frame_plan_errors() {
    assert_eq!(plan_frame(1920, 0, 1080, 60), Err(ConfigError::ZeroSourceHeight));
    assert_eq!(plan_frame(1920, 1080, 1080, 0), Err(ConfigError::ZeroRenderHeight));
    assert_eq!(plan_frame(u32::MAX, 1, 4, 1), Err(ConfigError::FrameTooWide));
    assert_eq!(plan_frame(1920, 1080, 40, 60), Err(ConfigError::CellTooShort));
}

#[test]
fn grid_columns_fill_the_width() {
    assert_eq!(grid_columns(1920, 9), Ok(213));
    assert_eq!(grid_columns(8, 9), Ok(0));
    assert_eq!(grid_columns(1920, 0), Err(ConfigError::ZeroCellWidth));
}
