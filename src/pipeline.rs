//! The decisions of the transcode loop: what to do with each demultiplexed
//! packet, each decoder pull and each encoder pull, through end of stream.
use vstd::prelude::*;
use crate::streams::{Route, StreamMap};
use crate::timing::{rescale_timing, timing_fits, timing_rescaled, PacketTiming, Timebase};

verus! {

/// The outcome of pulling from the decoder or the encoder.
#[derive(Debug, Clone, Copy, PartialEq, Eq, Structural)]
pub enum Pull<T> {
    /// One frame or packet came out.
    Produced(T),
    /// Nothing yet: more input is needed first.
    NotReady,
    /// Fully drained after end of stream.
    EndOfStream,
}

/// What the loop observed.
#[derive(Debug, Clone, Copy, PartialEq, Eq, Structural)]
pub enum Event {
    /// The demultiplexer gave a packet of input stream `stream`.
    Packet { stream: usize, timing: PacketTiming },
    /// The demultiplexer has no more packets.
    InputEnd,
    /// A pull from the decoder; a frame carries its presentation timestamp.
    Decoded(Pull<Option<i64>>),
    /// A pull from the encoder; a packet carries its timestamps in the
    /// input video timebase.
    Encoded(Pull<PacketTiming>),
}

/// Why the run stops.
#[derive(Debug, Clone, Copy, PartialEq, Eq, Structural)]
pub enum PipelineError {
    /// A packet names an input stream the map does not cover.
    UnknownStream,
    /// A timebase has a tick that is not positive.
    InvalidTimebase,
    /// A rescaled timestamp does not fit in an `i64`.
    TimestampOverflow,
    /// An event came that the current phase does not expect.
    OutOfTurn,
    /// The decoder had nothing to give after end of stream without being
    /// drained.
    DecoderStalled,
    /// The encoder had nothing to give after end of stream without being
    /// drained.
    EncoderStalled,
}

/// What the loop must do in answer to an event.
#[derive(Debug, Clone, Copy, PartialEq, Eq, Structural)]
pub enum Directive {
    /// Drop the packet.
    Discard,
    /// Write the packet as output stream `stream` with these timestamps.
    Write { stream: usize, timing: PacketTiming },
    /// Send the packet to the decoder.
    Decode,
    /// Signal end of stream to the decoder.
    FinishDecoding,
    /// Render the frame just decoded, give it presentation timestamp `pts`
    /// and send it to the encoder.
    Encode { pts: Option<i64> },
    /// Signal end of stream to the encoder.
    FinishEncoding,
    /// Nothing to do.
    Continue,
    /// Write the container trailer; the run is complete.
    WriteTrailer,
    /// Abort the run.
    Fail(PipelineError),
}

/// Where the next event comes from.
#[derive(Debug, Clone, Copy, PartialEq, Eq, Structural)]
pub enum Source {
    Input,
    Decoder,
    Encoder,
    Finished,
}

/// The phase of a run. `flushing` holds once end of stream was signalled to
/// the stage being drained.
#[derive(Debug, Clone, Copy, PartialEq, Eq, Structural)]
pub enum Phase {
    Reading,
    Decoding { flushing: bool },
    Encoding { flushing: bool },
    Done,
    Failed,
}

/// The state of a run: its phase, the routes of the input streams, and the
/// output stream and timebases of the rendered video.
pub struct Transcoder {
    pub phase: Phase,
    pub map: StreamMap,
    pub video_out: usize,
    pub video_in_tb: Timebase,
    pub video_out_tb: Timebase,
}

/// The answer to a packet that is written after rescaling from `from` to
/// `to`, in phase `stay`.
pub open spec fn write_rescaled(stay: Phase, stream: usize, t: PacketTiming, from: Timebase, to: Timebase) -> (Phase, Directive) {
    if !(from.valid() && to.valid()) {
        (Phase::Failed, Directive::Fail(PipelineError::InvalidTimebase))
    } else if !timing_fits(t, from, to) {
        (Phase::Failed, Directive::Fail(PipelineError::TimestampOverflow))
    } else {
        (stay, Directive::Write { stream, timing: timing_rescaled(t, from, to) })
    }
}

impl Transcoder {
    /// The phase that follows event `e`, and what the loop must do.
    pub open spec fn next(&self, e: Event) -> (Phase, Directive) {
        match self.phase {
            Phase::Reading => match e {
                Event::Packet { stream, timing } => if stream >= self.map.routes@.len() {
                    (Phase::Failed, Directive::Fail(PipelineError::UnknownStream))
                } else {
                    match self.map.routes@[stream as int] {
                        Route::Dropped => (Phase::Reading, Directive::Discard),
                        Route::Rendered { .. } => (Phase::Decoding { flushing: false }, Directive::Decode),
                        Route::Passthrough { out_index, in_tb, out_tb } =>
                            write_rescaled(Phase::Reading, out_index, timing, in_tb, out_tb),
                    }
                },
                Event::InputEnd => (Phase::Decoding { flushing: true }, Directive::FinishDecoding),
                _ => (Phase::Failed, Directive::Fail(PipelineError::OutOfTurn)),
            },
            Phase::Decoding { flushing } => match e {
                Event::Decoded(Pull::Produced(pts)) => (Phase::Decoding { flushing }, Directive::Encode { pts }),
                Event::Decoded(Pull::NotReady) => if flushing {
                    (Phase::Failed, Directive::Fail(PipelineError::DecoderStalled))
                } else {
                    (Phase::Encoding { flushing: false }, Directive::Continue)
                },
                Event::Decoded(Pull::EndOfStream) => if flushing {
                    (Phase::Encoding { flushing: true }, Directive::FinishEncoding)
                } else {
                    (Phase::Encoding { flushing: false }, Directive::Continue)
                },
                _ => (Phase::Failed, Directive::Fail(PipelineError::OutOfTurn)),
            },
            Phase::Encoding { flushing } => match e {
                Event::Encoded(Pull::Produced(t)) =>
                    write_rescaled(Phase::Encoding { flushing }, self.video_out, t, self.video_in_tb, self.video_out_tb),
                Event::Encoded(Pull::NotReady) => if flushing {
                    (Phase::Failed, Directive::Fail(PipelineError::EncoderStalled))
                } else {
                    (Phase::Reading, Directive::Continue)
                },
                Event::Encoded(Pull::EndOfStream) => if flushing {
                    (Phase::Done, Directive::WriteTrailer)
                } else {
                    (Phase::Reading, Directive::Continue)
                },
                _ => (Phase::Failed, Directive::Fail(PipelineError::OutOfTurn)),
            },
            Phase::Done => (Phase::Done, Directive::Fail(PipelineError::OutOfTurn)),
            Phase::Failed => (Phase::Failed, Directive::Fail(PipelineError::OutOfTurn)),
        }
    }

    /// The source the next event must come from in phase `p`.
    pub open spec fn source_of(p: Phase) -> Source {
        match p {
            Phase::Reading => Source::Input,
            Phase::Decoding { .. } => Source::Decoder,
            Phase::Encoding { .. } => Source::Encoder,
            Phase::Done | Phase::Failed => Source::Finished,
        }
    }

    /// Starts a run that reads input packets first.
    pub fn new(map: StreamMap, video_out: usize, video_in_tb: Timebase, video_out_tb: Timebase) -> (t: Transcoder)
        ensures
            t.phase == Phase::Reading,
            t.map == map,
            t.video_out == video_out,
            t.video_in_tb == video_in_tb,
            t.video_out_tb == video_out_tb,
    {
        Transcoder { phase: Phase::Reading, map, video_out, video_in_tb, video_out_tb }
    }

    /// Where the next event must come from.
    pub fn awaiting(&self) -> (s: Source)
        ensures
            s == Self::source_of(self.phase),
    {
        match self.phase {
            Phase::Reading => Source::Input,
            Phase::Decoding { .. } => Source::Decoder,
            Phase::Encoding { .. } => Source::Encoder,
            Phase::Done | Phase::Failed => Source::Finished,
        }
    }

    fn write_packet(stay: Phase, stream: usize, t: PacketTiming, from: Timebase, to: Timebase) -> (r: (Phase, Directive))
        ensures
            r == write_rescaled(stay, stream, t, from, to),
    {
        if !(from.num > 0 && from.den > 0 && to.num > 0 && to.den > 0) {
            return (Phase::Failed, Directive::Fail(PipelineError::InvalidTimebase));
        }
        match rescale_timing(t, from, to) {
            Some(timing) => (stay, Directive::Write { stream, timing }),
            None => (Phase::Failed, Directive::Fail(PipelineError::TimestampOverflow)),
        }
    }

    /// Takes one event and says what the loop must do with it: packets of
    /// dropped streams are discarded, those of passthrough streams written
    /// rescaled, those of the video stream decoded; each decoded frame is
    /// rendered and encoded with its own timestamp; each encoded packet is
    /// written as the video output stream, rescaled to its timebase. After
    /// every video packet the decoder and then the encoder are drained; at
    /// the end of input both are flushed in turn and the trailer written.
    pub fn step(&mut self, e: Event) -> (d: Directive)
        ensures
            (final(self).phase, d) == old(self).next(e),
            final(self).map == old(self).map,
            final(self).video_out == old(self).video_out,
            final(self).video_in_tb == old(self).video_in_tb,
            final(self).video_out_tb == old(self).video_out_tb,
    {
        let (phase, d) = match self.phase {
            Phase::Reading => match e {
                Event::Packet { stream, timing } => match self.map.route(stream) {
                    None => (Phase::Failed, Directive::Fail(PipelineError::UnknownStream)),
                    Some(Route::Dropped) => (Phase::Reading, Directive::Discard),
                    Some(Route::Rendered { .. }) => (Phase::Decoding { flushing: false }, Directive::Decode),
                    Some(Route::Passthrough { out_index, in_tb, out_tb }) =>
                        Self::write_packet(Phase::Reading, out_index, timing, in_tb, out_tb),
                },
                Event::InputEnd => (Phase::Decoding { flushing: true }, Directive::FinishDecoding),
                _ => (Phase::Failed, Directive::Fail(PipelineError::OutOfTurn)),
            },
            Phase::Decoding { flushing } => match e {
                Event::Decoded(Pull::Produced(pts)) => (Phase::Decoding { flushing }, Directive::Encode { pts }),
                Event::Decoded(Pull::NotReady) => if flushing {
                    (Phase::Failed, Directive::Fail(PipelineError::DecoderStalled))
                } else {
                    (Phase::Encoding { flushing: false }, Directive::Continue)
                },
                Event::Decoded(Pull::EndOfStream) => if flushing {
                    (Phase::Encoding { flushing: true }, Directive::FinishEncoding)
                } else {
                    (Phase::Encoding { flushing: false }, Directive::Continue)
                },
                _ => (Phase::Failed, Directive::Fail(PipelineError::OutOfTurn)),
            },
            Phase::Encoding { flushing } => match e {
                Event::Encoded(Pull::Produced(t)) =>
                    Self::write_packet(Phase::Encoding { flushing }, self.video_out, t, self.video_in_tb, self.video_out_tb),
                Event::Encoded(Pull::NotReady) => if flushing {
                    (Phase::Failed, Directive::Fail(PipelineError::EncoderStalled))
                } else {
                    (Phase::Reading, Directive::Continue)
                },
                Event::Encoded(Pull::EndOfStream) => if flushing {
                    (Phase::Done, Directive::WriteTrailer)
                } else {
                    (Phase::Reading, Directive::Continue)
                },
                _ => (Phase::Failed, Directive::Fail(PipelineError::OutOfTurn)),
            },
            Phase::Done => (Phase::Done, Directive::Fail(PipelineError::OutOfTurn)),
            Phase::Failed => (Phase::Failed, Directive::Fail(PipelineError::OutOfTurn)),
        };
        self.phase = phase;
        d
    }
}

/// The phase reached and the directives given when a run in the state of
/// `t` takes `events` in order.
pub open spec fn run(t: Transcoder, events: Seq<Event>) -> (Phase, Seq<Directive>)
    decreases events.len(),
{
    if events.len() == 0 {
        (t.phase, Seq::empty())
    } else {
        let (p, ds) = run(t, events.drop_last());
        let (q, d) = Transcoder { phase: p, ..t }.next(events.last());
        (q, ds.push(d))
    }
}

/// End of input followed by decoder pulls that give the frames `frames`.
pub open spec fn flush_events(frames: Seq<Option<i64>>) -> Seq<Event> {
    seq![Event::InputEnd] + frames.map_values(|f: Option<i64>| Event::Decoded(Pull::Produced(f)))
}

/// One `Encode` directive per frame, in order.
pub open spec fn encode_directives(frames: Seq<Option<i64>>) -> Seq<Directive> {
    frames.map_values(|f: Option<i64>| Directive::Encode { pts: f })
}

/// Frames still buffered in the decoder at end of input are all rendered
/// and encoded, in the order the decoder gives them and with their own
/// timestamps, while the run keeps draining the decoder; only the decoder's
/// end of stream then moves it on, to flushing the encoder.
pub proof fn lemma_flush_drains_decoder(t: Transcoder, frames: Seq<Option<i64>>)
    requires
        t.phase == Phase::Reading,
    ensures
        run(t, flush_events(frames)) == ((Phase::Decoding { flushing: true }), seq![Directive::FinishDecoding] + encode_directives(frames)),
        (Transcoder { phase: (Phase::Decoding { flushing: true }), ..t }).next(Event::Decoded(Pull::EndOfStream))
            == ((Phase::Encoding { flushing: true }), Directive::FinishEncoding),
    decreases frames.len(),
{
    if frames.len() == 0 {
        assert(flush_events(frames) =~= seq![Event::InputEnd]);
        assert(seq![Event::InputEnd].drop_last() =~= Seq::<Event>::empty());
        assert(run(t, Seq::<Event>::empty()) == (t.phase, Seq::<Directive>::empty()));
        assert(seq![Directive::FinishDecoding] + encode_directives(frames) =~= Seq::<Directive>::empty().push(Directive::FinishDecoding));
    } else {
        let rest = frames.drop_last();
        lemma_flush_drains_decoder(t, rest);
        assert(flush_events(frames).drop_last() =~= flush_events(rest));
        assert(flush_events(frames).last() == Event::Decoded(Pull::Produced(frames.last())));
        let p = run(t, flush_events(rest)).0;
        assert((Transcoder { phase: p, ..t }).next(Event::Decoded(Pull::Produced(frames.last())))
            == ((Phase::Decoding { flushing: true }), Directive::Encode { pts: frames.last() }));
        assert(seq![Directive::FinishDecoding] + encode_directives(frames)
            =~= (seq![Directive::FinishDecoding] + encode_directives(rest)).push(Directive::Encode { pts: frames.last() }));
    }
}

/// The run ends only after both flushes: it becomes done only when the
/// encoder, already flushing, reports end of stream; the encoder starts
/// flushing only when the decoder, already flushing, reports end of stream;
/// and the decoder starts flushing only at the end of input.
pub proof fn lemma_done_only_after_flushes(t: Transcoder, e: Event)
    ensures
        t.phase != Phase::Done && t.next(e).0 == Phase::Done
            ==> t.phase == (Phase::Encoding { flushing: true }) && e == Event::Encoded(Pull::EndOfStream),
        t.phase != (Phase::Encoding { flushing: true }) && t.next(e).0 == (Phase::Encoding { flushing: true })
            ==> t.phase == (Phase::Decoding { flushing: true }) && e == Event::Decoded(Pull::EndOfStream),
        t.phase != (Phase::Decoding { flushing: true }) && t.next(e).0 == (Phase::Decoding { flushing: true })
            ==> t.phase == Phase::Reading && e == Event::InputEnd,
{
}

} // verus!
