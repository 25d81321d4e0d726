//! Where the packets of each input stream go.
use vstd::prelude::*;
use crate::timing::Timebase;

verus! {

/// What an input stream carries.
#[derive(Debug, Clone, Copy, PartialEq, Eq, Structural)]
pub enum MediaKind {
    Video,
    Audio,
    Subtitle,
    Data,
    Attachment,
    Unknown,
}

/// What becomes of the packets of one input stream.
#[derive(Debug, Clone, Copy, PartialEq, Eq, Structural)]
pub enum Route {
    /// The rendered video stream, written as output stream `out_index`.
    Rendered { out_index: usize },
    /// Copied to output stream `out_index`, timestamps rescaled from
    /// `in_tb` to `out_tb`.
    Passthrough { out_index: usize, in_tb: Timebase, out_tb: Timebase },
    /// Discarded.
    Dropped,
}

/// Stream `i` gets an output stream: it is the rendered video stream, or
/// carries anything but video or an unknown kind. Other video streams are
/// not copied.
pub open spec fn kept(kinds: Seq<MediaKind>, video: int, i: int) -> bool {
    i == video || (kinds[i] != MediaKind::Video && kinds[i] != MediaKind::Unknown)
}

/// How many of the streams before `i` get an output stream.
pub open spec fn kept_before(kinds: Seq<MediaKind>, video: int, i: int) -> nat
    decreases i,
{
    if i <= 0 {
        0
    } else {
        kept_before(kinds, video, i - 1) + if kept(kinds, video, i - 1) {
            1nat
        } else {
            0nat
        }
    }
}

/// The timebase of an output stream: Matroska counts milliseconds,
/// other containers keep the input stream's timebase.
pub open spec fn output_time_base(dst_mkv: bool, tb: Timebase) -> Timebase {
    if dst_mkv {
        Timebase { num: 1, den: 1000 }
    } else {
        tb
    }
}

/// The route of input stream `i`: output streams are numbered in input
/// order, over the streams that are kept.
pub open spec fn route_of(kinds: Seq<MediaKind>, time_bases: Seq<Timebase>, video: int, dst_mkv: bool, i: int) -> Route {
    if i == video {
        Route::Rendered { out_index: kept_before(kinds, video, i) as usize }
    } else if kept(kinds, video, i) {
        Route::Passthrough {
            out_index: kept_before(kinds, video, i) as usize,
            in_tb: time_bases[i],
            out_tb: output_time_base(dst_mkv, time_bases[i]),
        }
    } else {
        Route::Dropped
    }
}

/// The timebase of an output stream, as `output_time_base` gives it.
pub fn out_time_base(dst_mkv: bool, tb: Timebase) -> (r: Timebase)
    ensures
        r == output_time_base(dst_mkv, tb),
{
    if dst_mkv {
        Timebase { num: 1, den: 1000 }
    } else {
        tb
    }
}

/// One route per input stream, by input stream index.
pub struct StreamMap {
    pub routes: Vec<Route>,
}

impl StreamMap {
    /// Routes the streams of an input whose stream `i` carries `kinds[i]`
    /// in ticks of `time_bases[i]`, rendering stream `video`, into a
    /// Matroska file when `dst_mkv` holds.
    pub fn build(kinds: &Vec<MediaKind>, time_bases: &Vec<Timebase>, video: usize, dst_mkv: bool) -> (m: StreamMap)
        requires
            kinds@.len() == time_bases@.len(),
        ensures
            m.routes@.len() == kinds@.len(),
            forall|i: int|
                0 <= i < kinds@.len() ==> #[trigger] m.routes@[i] == route_of(kinds@, time_bases@, video as int, dst_mkv, i),
    {
        let mut routes: Vec<Route> = Vec::new();
        let mut next: usize = 0;
        let mut i: usize = 0;
        while i < kinds.len()
            invariant
                kinds@.len() == time_bases@.len(),
                i <= kinds@.len(),
                routes@.len() == i,
                next == kept_before(kinds@, video as int, i as int),
                next <= i,
                forall|k: int|
                    0 <= k < i ==> #[trigger] routes@[k] == route_of(kinds@, time_bases@, video as int, dst_mkv, k),
            decreases kinds@.len() - i,
        {
            let kind = kinds[i];
            if i == video {
                routes.push(Route::Rendered { out_index: next });
                next = next + 1;
            } else if kind != MediaKind::Video && kind != MediaKind::Unknown {
                let tb = time_bases[i];
                routes.push(Route::Passthrough { out_index: next, in_tb: tb, out_tb: out_time_base(dst_mkv, tb) });
                next = next + 1;
            } else {
                routes.push(Route::Dropped);
            }
            i = i + 1;
        }
        StreamMap { routes }
    }

    /// The route of input stream `stream`; `None` for an index the map
    /// does not cover.
    pub fn route(&self, stream: usize) -> (r: Option<Route>)
        ensures
            r == (if stream < self.routes@.len() {
                Some(self.routes@[stream as int])
            } else {
                None
            }),
    {
        if stream < self.routes.len() {
            Some(self.routes[stream])
        } else {
            None
        }
    }
}

} // verus!
