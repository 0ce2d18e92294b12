//! The rolling window of captured audio: the most recent seconds of PCM, kept on the wall
//! clock's timeline by filling gaps with silence.

use std::collections::VecDeque;
use vstd::arithmetic::div_mod::*;
use vstd::prelude::*;

use crate::backend::capture::audio;
use crate::backend::capture::audio::AudioTrack;
use crate::util::clock::Moment;
use crate::util::double::count_nanos;
use crate::util::{clock, double, text};

verus! {

/// A chunk of captured audio.
pub struct AudioChunk {
    /// Time of the first sample on the audio clock, in nanoseconds.
    pub pts_ns: i64,
    /// Frames in the chunk.
    pub frames: usize,
    /// Interleaved samples.
    pub data: Vec<i16>,
}

/// What the audio clock and the monotonic clock read when a chunk was polled.
#[derive(Debug, Clone, Copy, PartialEq, Eq, Structural)]
pub struct PollTime {
    pub audio_ns: i64,
    pub now: Moment,
}

/// The contents of the window.
pub struct WindowModel {
    pub sample_rate: u32,
    pub channels: u16,
    /// Frames that the window holds at most.
    pub cap_frames: usize,
    /// Audio clock and wall-clock time of the first sample ever captured.
    pub anchor: Option<(i64, Moment)>,
    /// Frames captured since the anchor, silence included.
    pub total_frames: u64,
    /// Frames dropped off the front: the global index of the first frame retained.
    pub front_frame: u64,
    pub ring: Seq<i16>,
}

/// The wall-clock time of a sample that was polled at `at`: the latency between its being
/// played and its being polled is taken off.
pub open spec fn played_at(pts_ns: i64, at: PollTime) -> Moment {
    Moment {
        nanos: if at.audio_ns > pts_ns {
            (at.now.nanos - (at.audio_ns - pts_ns)) as u64
        } else {
            at.now.nanos
        },
    }
}

impl WindowModel {
    /// An empty window of `keep_secs` seconds.
    pub open spec fn empty(keep_secs: u32, sample_rate: u32, channels: u16) -> WindowModel {
        WindowModel {
            sample_rate,
            channels: clock::at_least_one(channels as nat) as u16,
            cap_frames: (keep_secs * sample_rate) as usize,
            anchor: None,
            total_frames: 0,
            front_frame: 0,
            ring: Seq::empty(),
        }
    }

    /// There is a channel, and whatever is retained has its place in time.
    pub open spec fn wf(self) -> bool {
        self.channels > 0 && (self.ring.len() > 0 ==> self.anchor is Some)
    }

    /// The anchor once a chunk with this timestamp has been polled.
    pub open spec fn anchor_with(self, pts_ns: i64, at: PollTime) -> (i64, Moment) {
        match self.anchor {
            Some(anchor) => anchor,
            None => (pts_ns, played_at(pts_ns, at)),
        }
    }

    /// The frame at which the audio clock says that a chunk begins.
    pub open spec fn expected_frames(self, pts_ns: i64, at: PollTime) -> u64 {
        let since = pts_ns - self.anchor_with(pts_ns, at).0;
        if since <= 0 {
            0
        } else {
            ((since * self.sample_rate / 1_000_000_000) % 0x1_0000_0000_0000_0000) as u64
        }
    }

    /// How far the audio clock may run ahead of the frames stored: twenty milliseconds.
    pub open spec fn tolerance(self) -> nat {
        (self.sample_rate / 50) as nat
    }

    /// Frames of silence that go before a chunk.
    pub open spec fn missing_frames(self, pts_ns: i64, at: PollTime) -> nat {
        let expected = self.expected_frames(pts_ns, at);
        if expected > self.total_frames + self.tolerance() {
            (expected - self.total_frames) as nat
        } else {
            0
        }
    }

    /// The samples that a chunk adds, the silence before it included.
    pub open spec fn addition(self, chunk: AudioChunk, at: PollTime) -> Seq<i16> {
        text::repeated(0i16, self.missing_frames(chunk.pts_ns, at) * self.channels as nat)
            + chunk.data@
    }

    /// Frames that are too many.
    pub open spec fn surplus(self) -> nat {
        let held = self.ring.len() / self.channels as nat;
        if held > self.cap_frames {
            (held - self.cap_frames) as nat
        } else {
            0
        }
    }

    /// The window cut down to the frames that it holds at most.
    pub open spec fn trimmed(self) -> WindowModel {
        WindowModel {
            front_frame: (self.front_frame + self.surplus()) as u64,
            ring: self.ring.skip((self.surplus() * self.channels) as int),
            ..self
        }
    }

    /// The window with the samples of a chunk appended.
    pub open spec fn extended(self, chunk: AudioChunk, at: PollTime) -> WindowModel {
        WindowModel {
            anchor: Some(self.anchor_with(chunk.pts_ns, at)),
            total_frames: (self.total_frames + self.missing_frames(chunk.pts_ns, at)
                + chunk.frames) as u64,
            ring: self.ring + self.addition(chunk, at),
            ..self
        }
    }

    /// The window with what a chunk still holds after the end of the timeline: the samples
    /// alone, without silence before them. A first chunk gives the timeline its origin.
    pub open spec fn with_tail(self, chunk: AudioChunk, at: PollTime) -> WindowModel {
        WindowModel {
            anchor: Some(self.anchor_with(chunk.pts_ns, at)),
            ring: self.ring + chunk.data@,
            ..self
        }
    }

    /// The clocks can tell when the first sample of a chunk was played, where that is asked.
    pub open spec fn can_anchor(self, pts_ns: i64, at: PollTime) -> bool {
        self.anchor is None ==> i64::MIN <= at.audio_ns - pts_ns <= i64::MAX && at.audio_ns
            - pts_ns <= at.now.nanos
    }

    /// The clocks and counters have room for a chunk.
    pub open spec fn fits(self, chunk: AudioChunk, at: PollTime) -> bool {
        let missing = self.missing_frames(chunk.pts_ns, at);
        let grown = self.ring.len() + missing * self.channels as nat + chunk.data@.len();
        &&& self.can_anchor(chunk.pts_ns, at)
        &&& self.anchor matches Some((anchor_pts, _)) ==> i64::MIN <= chunk.pts_ns - anchor_pts
            <= i64::MAX
        &&& self.total_frames + self.tolerance() <= u64::MAX
        &&& grown <= usize::MAX
        &&& self.total_frames + missing + chunk.frames <= u64::MAX
        &&& self.front_frame + grown <= u64::MAX
    }

    /// There is nothing to hand out: no sample came, or none is left.
    pub open spec fn yields_nothing(self) -> bool {
        self.trimmed().ring.len() == 0
    }

    /// The wall-clock time of the first sample retained can be told, if there is any.
    pub open spec fn finishable(self) -> bool {
        &&& self.front_frame + self.ring.len() <= u64::MAX
        &&& self.anchor matches Some((_, origin)) ==> self.trimmed().ring.len() == 0 || (
        self.sample_rate > 0 && origin.nanos + audio::playing_time(
            self.trimmed().front_frame as nat,
            self.sample_rate as nat,
        ) <= u64::MAX)
    }
}

/// The rolling window of captured audio.
pub struct AudioWindow {
    sample_rate: u32,
    channels: u16,
    cap_frames: usize,
    anchor: Option<(i64, Moment)>,
    total_frames: u64,
    front_frame: u64,
    ring: VecDeque<i16>,
}

impl View for AudioWindow {
    type V = WindowModel;

    closed spec fn view(&self) -> WindowModel {
        WindowModel {
            sample_rate: self.sample_rate,
            channels: self.channels,
            cap_frames: self.cap_frames,
            anchor: self.anchor,
            total_frames: self.total_frames,
            front_frame: self.front_frame,
            ring: self.ring@,
        }
    }
}

impl AudioWindow {
    /// An empty window of `keep_secs` seconds.
    pub fn new(keep_secs: u32, sample_rate: u32, channels: u16) -> (window: AudioWindow)
        requires
            keep_secs * sample_rate <= usize::MAX,
        ensures
            window@ == WindowModel::empty(keep_secs, sample_rate, channels),
            window@ == (WindowModel {
                sample_rate,
                channels: clock::at_least_one(channels as nat) as u16,
                cap_frames: (keep_secs * sample_rate) as usize,
                anchor: None,
                total_frames: 0,
                front_frame: 0,
                ring: Seq::empty(),
            }),
            window@.wf(),
    {
        AudioWindow {
            sample_rate,
            channels: if channels == 0 {
                1
            } else {
                channels
            },
            cap_frames: keep_secs as usize * sample_rate as usize,
            anchor: None,
            total_frames: 0,
            front_frame: 0,
            ring: VecDeque::new(),
        }
    }

    /// The timeline's origin; a first chunk gives it.
    fn anchor_for(&self, pts_ns: i64, at: PollTime) -> (anchor: (i64, Moment))
        requires
            self@.can_anchor(pts_ns, at),
        ensures
            anchor == self@.anchor_with(pts_ns, at),
    {
        match self.anchor {
            Some(anchor) => anchor,
            None => {
                // Latency between "the samples were played" and "they were polled".
                let lag: i64 = at.audio_ns - pts_ns;
                let played: u64 = if lag > 0 {
                    at.now.nanos - lag as u64
                } else {
                    at.now.nanos
                };
                (pts_ns, Moment { nanos: played })
            },
        }
    }

    fn missing(&self, anchor_pts: i64, pts_ns: i64, at: PollTime) -> (missing: u64)
        requires
            self@.wf(),
            anchor_pts == self@.anchor_with(pts_ns, at).0,
            i64::MIN <= pts_ns - anchor_pts <= i64::MAX,
            self@.total_frames + self@.tolerance() <= u64::MAX,
        ensures
            missing == self@.missing_frames(pts_ns, at),
    {
        let since: i64 = pts_ns - anchor_pts;
        let expected: u64 = if since <= 0 {
            0
        } else {
            assert(since * self.sample_rate <= i64::MAX * u32::MAX) by (nonlinear_arith)
                requires
                    0 <= since <= i64::MAX,
                    0 <= self.sample_rate <= u32::MAX,
            ;
            ((since as u128 * self.sample_rate as u128 / 1_000_000_000)
                % 0x1_0000_0000_0000_0000) as u64
        };
        let tolerance: u64 = self.sample_rate as u64 / 50;
        if expected > self.total_frames + tolerance {
            expected - self.total_frames
        } else {
            0
        }
    }

    fn push_samples(&mut self, data: &Vec<i16>)
        ensures
            final(self)@ == (WindowModel { ring: old(self)@.ring + data@, ..old(self)@ }),
    {
        let mut i: usize = 0;
        assert(data@.take(0) =~= Seq::<i16>::empty());
        assert(self@.ring =~= old(self)@.ring + data@.take(0));
        while i < data.len()
            invariant
                i <= data.len(),
                self@ == (WindowModel {
                    ring: old(self)@.ring + data@.take(i as int),
                    ..old(self)@
                }),
            decreases data.len() - i,
        {
            self.ring.push_back(data[i]);
            i += 1;
            assert(self@.ring =~= old(self)@.ring + data@.take(i as int));
        }
        assert(data@.take(i as int) =~= data@);
    }

    fn push_silence(&mut self, samples: usize)
        ensures
            final(self)@ == (WindowModel {
                ring: old(self)@.ring + text::repeated(0i16, samples as nat),
                ..old(self)@
            }),
    {
        let mut i: usize = 0;
        assert(self@.ring =~= old(self)@.ring + text::repeated(0i16, 0));
        while i < samples
            invariant
                i <= samples,
                self@ == (WindowModel {
                    ring: old(self)@.ring + text::repeated(0i16, i as nat),
                    ..old(self)@
                }),
            decreases samples - i,
        {
            self.ring.push_back(0);
            i += 1;
            assert(self@.ring =~= old(self)@.ring + text::repeated(0i16, i as nat));
        }
    }

    /// Trims the ring down to the retention window.
    fn trim(&mut self)
        requires
            old(self)@.wf(),
            old(self)@.front_frame + old(self)@.ring.len() <= u64::MAX,
        ensures
            final(self)@ == old(self)@.trimmed(),
            final(self)@.wf(),
    {
        let channels: usize = self.channels as usize;
        let held: usize = self.ring.len() / channels;
        let ghost start = self@;
        assert(held <= self.ring@.len() && held * channels <= self.ring@.len())
            by (nonlinear_arith)
            requires
                held == self.ring@.len() as int / (channels as int),
                channels > 0,
        ;
        if held > self.cap_frames {
            let drop_frames: usize = held - self.cap_frames;
            assert(drop_frames * channels <= held * channels) by (nonlinear_arith)
                requires
                    0 <= drop_frames <= held,
                    channels > 0,
            ;
            let mut left: usize = drop_frames * channels;
            let ghost all = left as int;
            assert(self.ring@ =~= start.ring.skip(all - left));
            while left > 0
                invariant
                    left <= all <= start.ring.len(),
                    self@ == (WindowModel { ring: start.ring.skip(all - left), ..start }),
                decreases left,
            {
                let _ = self.ring.pop_front();
                left -= 1;
                assert(self@.ring =~= start.ring.skip(all - left));
            }
            self.front_frame = self.front_frame + drop_frames as u64;
        } else {
            assert(start.ring.skip(0) =~= start.ring);
        }
        proof {
            let surplus = start.surplus() as int;
            assert(surplus == if held > start.cap_frames {
                held - start.cap_frames
            } else {
                0
            });
            assert(0 * channels == 0);
            assert(self@.ring =~= start.ring.skip(surplus * channels));
        }
    }

    /// Appends a chunk. Where the audio clock has moved further than the frames stored, the
    /// difference is a real hole, which is filled with silence so that the audio keeps
    /// tracking wall-clock time. Then the window is trimmed.
    pub fn push_chunk(&mut self, chunk: &AudioChunk, at: PollTime)
        requires
            old(self)@.wf(),
            old(self)@.fits(*chunk, at),
        ensures
            final(self)@ == old(self)@.extended(*chunk, at).trimmed(),
            final(self)@.wf(),
    {
        let ghost start = self@;
        let anchor: (i64, Moment) = self.anchor_for(chunk.pts_ns, at);
        let missing: u64 = self.missing(anchor.0, chunk.pts_ns, at);
        self.anchor = Some(anchor);
        assert(missing <= missing * self.channels) by (nonlinear_arith)
            requires
                missing >= 0,
                self.channels >= 1,
        ;
        if missing > 0 {
            self.push_silence(missing as usize * self.channels as usize);
        }
        self.push_samples(&chunk.data);
        self.total_frames = self.total_frames + missing + chunk.frames as u64;
        assert(0 * self.channels == 0);
        assert(self@.ring =~= start.extended(*chunk, at).ring);
        self.trim();
    }

    /// Appends a chunk that was still under way when the capture stopped. The timeline is
    /// finished, so no gap is filled; where no chunk came before, this one is its origin.
    pub fn push_tail(&mut self, chunk: &AudioChunk, at: PollTime)
        requires
            old(self)@.wf(),
            old(self)@.can_anchor(chunk.pts_ns, at),
        ensures
            final(self)@ == old(self)@.with_tail(*chunk, at),
            final(self)@.wf(),
    {
        self.anchor = Some(self.anchor_for(chunk.pts_ns, at));
        self.push_samples(&chunk.data);
    }

    /// Whether the clocks can tell when the first sample of a chunk was played, where that is
    /// asked.
    pub fn has_origin(&self, chunk: &AudioChunk, at: PollTime) -> (can: bool)
        ensures
            can == self@.can_anchor(chunk.pts_ns, at),
    {
        match self.anchor {
            Some(_) => true,
            None => {
                let lag: i128 = at.audio_ns as i128 - chunk.pts_ns as i128;
                lag >= i64::MIN as i128 && lag <= i64::MAX as i128 && lag <= at.now.nanos as i128
            },
        }
    }

    /// Whether the clocks and counters have room for a chunk.
    pub fn has_room(&self, chunk: &AudioChunk, at: PollTime) -> (room: bool)
        requires
            self@.wf(),
        ensures
            room == self@.fits(*chunk, at),
    {
        if !self.has_origin(chunk, at) {
            return false;
        }
        let anchor_pts: i64 = match self.anchor {
            Some((anchor_pts, _)) => {
                let since: i128 = chunk.pts_ns as i128 - anchor_pts as i128;
                if since < i64::MIN as i128 || since > i64::MAX as i128 {
                    return false;
                }
                anchor_pts
            },
            None => chunk.pts_ns,
        };
        let tolerance: u64 = self.sample_rate as u64 / 50;
        if self.total_frames > u64::MAX - tolerance {
            return false;
        }
        let missing: u64 = self.missing(anchor_pts, chunk.pts_ns, at);
        assert(missing * self.channels <= u64::MAX * u16::MAX) by (nonlinear_arith)
            requires
                0 <= missing <= u64::MAX,
                0 <= self.channels <= u16::MAX,
        ;
        let grown: u128 = self.ring.len() as u128 + missing as u128 * self.channels as u128
            + chunk.data.len() as u128;
        grown <= usize::MAX as u128 && self.total_frames as u128 + missing as u128
            + chunk.frames as u128 <= u64::MAX as u128 && self.front_frame as u128 + grown
            <= u64::MAX as u128
    }

    /// Whether `finish` can give the wall-clock time of the first sample retained.
    pub fn can_finish(&self) -> (can: bool)
        requires
            self@.wf(),
        ensures
            can == self@.finishable(),
    {
        if self.front_frame as u128 + self.ring.len() as u128 > u64::MAX as u128 {
            return false;
        }
        let channels: usize = self.channels as usize;
        let held: usize = self.ring.len() / channels;
        assert(held <= self.ring@.len()) by (nonlinear_arith)
            requires
                held == self.ring@.len() as int / (channels as int),
                channels > 0,
        ;
        let surplus: usize = if held > self.cap_frames {
            held - self.cap_frames
        } else {
            0
        };
        let front: u64 = self.front_frame + surplus as u64;
        assert(surplus * channels <= self.ring@.len()) by (nonlinear_arith)
            requires
                0 <= surplus <= held,
                held == self.ring@.len() as int / (channels as int),
                channels > 0,
        ;
        let left: usize = self.ring.len() - surplus * channels;
        match self.anchor {
            Some((_, origin)) => {
                if left == 0 {
                    return true;
                }
                if self.sample_rate == 0 {
                    return false;
                }
                let played: u128 = count_nanos(front, self.sample_rate);
                played <= u64::MAX as u128 && origin.nanos as u128 + played <= u64::MAX as u128
            },
            None => true,
        }
    }

    /// Trims the window and hands out the audio in it, with the wall-clock time of its first
    /// sample. There is none where no sample came or none is left.
    pub fn finish(self) -> (track: Option<AudioTrack>)
        requires
            self@.wf(),
            self@.finishable(),
        ensures
            track is None <==> self@.yields_nothing(),
            track matches Some(t) ==> {
                &&& t.samples@ == self@.trimmed().ring
                &&& t.sample_rate == self@.sample_rate
                &&& t.channels == self@.channels
                &&& self@.anchor matches Some((_, origin)) && t.start.nanos == origin.nanos + audio::playing_time(
                    self@.trimmed().front_frame as nat,
                    self@.sample_rate as nat,
                )
            },
    {
        let mut window = self;
        window.trim();
        let origin: Moment = match window.anchor {
            Some((_, origin)) => origin,
            None => {
                return None;
            },
        };
        if window.ring.len() == 0 {
            return None;
        }
        let played: u128 = count_nanos(window.front_frame, window.sample_rate);
        let start = Moment { nanos: origin.nanos + played as u64 };
        let mut samples: Vec<i16> = Vec::new();
        let mut i: usize = 0;
        while i < window.ring.len()
            invariant
                i <= window.ring@.len(),
                samples@ == window.ring@.take(i as int),
            decreases window.ring@.len() - i,
        {
            samples.push(window.ring[i]);
            i += 1;
            assert(samples@ =~= window.ring@.take(i as int));
        }
        assert(window.ring@.take(i as int) =~= window.ring@);
        Some(
            AudioTrack {
                samples,
                sample_rate: window.sample_rate,
                channels: window.channels,
                start,
            },
        )
    }
}

/// A chunk and the time of its being polled.
pub struct Arrival {
    pub chunk: AudioChunk,
    pub at: PollTime,
}

/// The window after a row of chunks.
pub open spec fn window_after(start: WindowModel, arrivals: Seq<Arrival>) -> WindowModel
    decreases arrivals.len(),
{
    if arrivals.len() == 0 {
        start
    } else {
        let before = window_after(start, arrivals.drop_last());
        before.extended(arrivals.last().chunk, arrivals.last().at).trimmed()
    }
}

/// Every chunk of the row has room when it comes.
pub open spec fn all_fit(start: WindowModel, arrivals: Seq<Arrival>) -> bool
    decreases arrivals.len(),
{
    arrivals.len() > 0 ==> {
        &&& all_fit(start, arrivals.drop_last())
        &&& window_after(start, arrivals.drop_last()).fits(
            arrivals.last().chunk,
            arrivals.last().at,
        )
    }
}

/// Everything that was ever captured, silence in the gaps included.
pub open spec fn whole_stream(start: WindowModel, arrivals: Seq<Arrival>) -> Seq<i16>
    decreases arrivals.len(),
{
    if arrivals.len() == 0 {
        Seq::empty()
    } else {
        whole_stream(start, arrivals.drop_last()) + window_after(start, arrivals.drop_last()).addition(
            arrivals.last().chunk,
            arrivals.last().at,
        )
    }
}

/// Every chunk holds as many samples as its frames have channels.
pub open spec fn whole_frames(channels: u16, arrivals: Seq<Arrival>) -> bool {
    forall|i: int|
        0 <= i < arrivals.len() ==> (#[trigger] arrivals[i]).chunk.data@.len()
            == arrivals[i].chunk.frames * channels
}

/// A window into which nothing has come yet.
pub open spec fn is_empty_window(w: WindowModel) -> bool {
    w.wf() && w.anchor is None && w.total_frames == 0 && w.front_frame == 0 && w.ring.len() == 0
}

proof fn lemma_div_of_whole(n: int, k: int, channels: int)
    requires
        channels > 0,
        0 <= k,
        k * channels <= n,
    ensures
        (n - k * channels) / channels == n / channels - k,
        k <= n / channels,
{
    assert((n - k * channels) / channels == n / channels - k && k <= n / channels)
        by (nonlinear_arith)
        requires
            channels > 0,
            0 <= k,
            k * channels <= n,
    ;
}

/// A window holds the stream without its first `front_frame` frames, and has dropped no more
/// than the frames by which the stream exceeds the window.
pub open spec fn holds_recent(w: WindowModel, stream: Seq<i16>) -> bool {
    &&& w.channels > 0
    &&& w.front_frame * w.channels <= stream.len()
    &&& w.ring == stream.skip((w.front_frame * w.channels) as int)
    &&& w.front_frame <= frames_beyond(stream, w.channels, w.cap_frames)
}

/// Whole frames by which a stream exceeds a window of `cap_frames` frames.
pub open spec fn frames_beyond(stream: Seq<i16>, channels: u16, cap_frames: usize) -> nat {
    let frames = stream.len() / channels as nat;
    if frames > cap_frames {
        (frames - cap_frames) as nat
    } else {
        0
    }
}

/// A window holds the stream without just the frames by which the stream exceeds it.
pub open spec fn holds_most_recent(w: WindowModel, stream: Seq<i16>) -> bool {
    &&& holds_recent(w, stream)
    &&& w.ring.len() / w.channels as nat <= w.cap_frames
    &&& w.front_frame == frames_beyond(stream, w.channels, w.cap_frames)
}

/// A window that grows with its stream keeps holding its recent part.
pub proof fn lemma_growing_keeps_recent(
    before: WindowModel,
    grown: WindowModel,
    stream: Seq<i16>,
    more: Seq<i16>,
)
    requires
        holds_recent(before, stream),
        grown.channels == before.channels,
        grown.cap_frames == before.cap_frames,
        grown.front_frame == before.front_frame,
        grown.ring == before.ring + more,
    ensures
        holds_recent(grown, stream + more),
{
    let channels = before.channels as int;
    let front = before.front_frame as int;
    let m = stream.len() as int;
    let n = (stream + more).len() as int;
    assert(front * channels >= 0) by (nonlinear_arith)
        requires
            front >= 0,
            channels > 0,
    ;
    assert(grown.ring =~= (stream + more).skip(front * channels));
    assert(m / channels <= n / channels) by (nonlinear_arith)
        requires
            m <= n,
            channels > 0,
    ;
}

/// Trimming leaves the most recent part of the stream.
pub proof fn lemma_trimming_keeps_most_recent(w: WindowModel, stream: Seq<i16>)
    requires
        holds_recent(w, stream),
        w.front_frame + w.ring.len() <= u64::MAX,
    ensures
        holds_most_recent(w.trimmed(), stream),
{
    let channels = w.channels as int;
    let front = w.front_frame as int;
    let drop = w.surplus() as int;
    let n = stream.len() as int;
    let held = w.ring.len() as int / channels;
    assert(front * channels >= 0) by (nonlinear_arith)
        requires
            front >= 0,
            channels > 0,
    ;
    lemma_div_of_whole(n, front, channels);
    assert(held == n / channels - front);
    assert(drop * channels <= w.ring.len() && drop * channels >= 0 && held <= w.ring.len())
        by (nonlinear_arith)
        requires
            0 <= drop <= held,
            held == w.ring.len() as int / channels,
            channels > 0,
            w.ring.len() >= 0,
    ;
    assert((front + drop) * channels == front * channels + drop * channels) by (nonlinear_arith);
    lemma_div_of_whole(w.ring.len() as int, drop, channels);
    assert(w.trimmed().front_frame == front + drop);
    assert(w.trimmed().ring =~= stream.skip((front + drop) * channels));
}

/// A window that holds the most recent of a stream of whole frames holds exactly its last
/// samples: as many as the window has frames, times the channels, or all of them.
pub proof fn lemma_most_recent_are_the_last_samples(w: WindowModel, stream: Seq<i16>)
    requires
        holds_most_recent(w, stream),
        stream.len() % w.channels as nat == 0,
    ensures
        ({
            let most = w.cap_frames * w.channels;
            w.ring == if stream.len() > most {
                stream.skip(stream.len() - most)
            } else {
                stream
            }
        }),
{
    let channels = w.channels as int;
    let n = stream.len() as int;
    let frames = n / channels;
    let cap = w.cap_frames as int;
    assert(n == frames * channels) by (nonlinear_arith)
        requires
            n % channels == 0,
            frames == n / channels,
            channels > 0,
    ;
    if frames > cap {
        assert((frames - cap) * channels == frames * channels - cap * channels && frames * channels
            > cap * channels) by (nonlinear_arith)
            requires
                frames > cap,
                channels > 0,
        ;
    } else {
        assert(frames * channels <= cap * channels) by (nonlinear_arith)
            requires
                frames <= cap,
                channels > 0,
        ;
        assert(0 * channels == 0);
        assert(stream.skip(0) =~= stream);
    }
}

/// A window into which nothing has come holds the most recent of nothing.
pub proof fn lemma_nothing_is_most_recent(w: WindowModel)
    requires
        is_empty_window(w),
    ensures
        holds_most_recent(w, Seq::empty()),
{
    let channels = w.channels as int;
    assert(w.front_frame * w.channels == 0) by (nonlinear_arith)
        requires
            w.front_frame == 0,
    ;
    assert(w.ring =~= Seq::<i16>::empty().skip(0));
    assert(0int / channels == 0) by (nonlinear_arith)
        requires
            channels > 0,
    ;
}

/// The window always holds the most recent audio and no more than its length.
pub proof fn lemma_window_holds_the_most_recent(start: WindowModel, arrivals: Seq<Arrival>)
    requires
        is_empty_window(start),
        all_fit(start, arrivals),
    ensures
        ({
            let w = window_after(start, arrivals);
            &&& holds_most_recent(w, whole_stream(start, arrivals))
            &&& w.channels == start.channels
            &&& w.sample_rate == start.sample_rate
            &&& w.cap_frames == start.cap_frames
        }),
    decreases arrivals.len(),
{
    if arrivals.len() == 0 {
        lemma_nothing_is_most_recent(start);
    } else {
        lemma_window_holds_the_most_recent(start, arrivals.drop_last());
        let before = window_after(start, arrivals.drop_last());
        let chunk = arrivals.last().chunk;
        let at = arrivals.last().at;
        let grown = before.extended(chunk, at);
        lemma_growing_keeps_recent(
            before,
            grown,
            whole_stream(start, arrivals.drop_last()),
            before.addition(chunk, at),
        );
        lemma_trimming_keeps_most_recent(grown, whole_stream(start, arrivals));
    }
}

/// As long as chunks hold whole frames, the frame counter is the length of the whole stream,
/// so the frames retained are exactly those since the first one retained.
pub proof fn lemma_counters_agree(start: WindowModel, arrivals: Seq<Arrival>)
    requires
        is_empty_window(start),
        all_fit(start, arrivals),
        whole_frames(start.channels, arrivals),
    ensures
        ({
            let w = window_after(start, arrivals);
            &&& whole_stream(start, arrivals).len() == w.total_frames * w.channels
            &&& w.ring.len() == (w.total_frames - w.front_frame) * w.channels
            &&& w.channels == start.channels
        }),
    decreases arrivals.len(),
{
    let w = window_after(start, arrivals);
    let channels = start.channels as int;
    lemma_window_holds_the_most_recent(start, arrivals);
    if arrivals.len() == 0 {
        assert(w.total_frames * w.channels == 0) by (nonlinear_arith)
            requires
                w.total_frames == 0,
        ;
    } else {
        assert forall|i: int| 0 <= i < arrivals.drop_last().len() implies (
        #[trigger] arrivals.drop_last()[i]).chunk.data@.len()
            == arrivals.drop_last()[i].chunk.frames * start.channels by {
            assert(arrivals[i].chunk.data@.len() == arrivals[i].chunk.frames * start.channels);
        }
        lemma_counters_agree(start, arrivals.drop_last());
        let before = window_after(start, arrivals.drop_last());
        let last = arrivals[arrivals.len() - 1];
        let missing = before.missing_frames(last.chunk.pts_ns, last.at) as int;
        let total = before.total_frames as int;
        let frames = last.chunk.frames as int;
        assert(missing * channels >= 0) by (nonlinear_arith)
            requires
                missing >= 0,
                channels > 0,
        ;
        assert((total + missing + frames) * channels == total * channels + missing * channels
            + frames * channels) by (nonlinear_arith);
    }
    assert((w.total_frames - w.front_frame) * channels == w.total_frames * channels - w.front_frame
        * channels) by (nonlinear_arith);
}

/// The audio never falls behind its clock by more than the tolerance: where a chunk is
/// appended, at least as many frames precede it as the clock calls for, less twenty
/// milliseconds; and exactly as many where a gap was filled.
pub proof fn lemma_audio_tracks_its_clock(w: WindowModel, chunk: AudioChunk, at: PollTime)
    requires
        w.wf(),
        w.fits(chunk, at),
    ensures
        ({
            let expected = w.expected_frames(chunk.pts_ns, at);
            let missing = w.missing_frames(chunk.pts_ns, at);
            let position = w.total_frames + missing;
            &&& position + w.tolerance() >= expected
            &&& missing > 0 ==> position == expected
            &&& w.extended(chunk, at).total_frames == position + chunk.frames
        }),
{
}

/// Audio clock and wall-clock time of the first sample come from the first chunk and never
/// change again: its timestamp, and the time of its being polled less the time that had passed
/// since it was played.
pub proof fn lemma_first_chunk_is_the_origin(start: WindowModel, arrivals: Seq<Arrival>)
    requires
        is_empty_window(start),
        all_fit(start, arrivals),
        arrivals.len() > 0,
    ensures
        ({
            let first = arrivals[0];
            let lag = first.at.audio_ns - first.chunk.pts_ns;
            window_after(start, arrivals).anchor matches Some((pts, origin)) && pts
                == first.chunk.pts_ns && origin.nanos == if lag > 0 {
                first.at.now.nanos - lag
            } else {
                first.at.now.nanos as int
            }
        }),
    decreases arrivals.len(),
{
    if arrivals.len() > 1 {
        lemma_first_chunk_is_the_origin(start, arrivals.drop_last());
        assert(arrivals.drop_last()[0] == arrivals[0]);
    } else {
        assert(arrivals.last() == arrivals[0]);
        assert(window_after(start, arrivals.drop_last()) == start);
    }
}

/// The frame at which the audio clock says that a chunk begins is the whole time since the first
/// one, in frames, cut to a whole number.
pub proof fn lemma_expected_frame_counts_the_whole_time(
    w: WindowModel,
    anchor_pts: i64,
    origin: Moment,
    pts_ns: i64,
    at: PollTime,
)
    requires
        w.anchor == Some((anchor_pts, origin)),
    ensures
        pts_ns <= anchor_pts ==> w.expected_frames(pts_ns, at) == 0,
        pts_ns >= anchor_pts && (pts_ns - anchor_pts) * w.sample_rate < 0x1_0000_0000_0000_0000
            * 1_000_000_000 ==> {
            let elapsed = (pts_ns - anchor_pts) * w.sample_rate;
            let expected = w.expected_frames(pts_ns, at);
            expected * 1_000_000_000 <= elapsed < (expected + 1) * 1_000_000_000
        },
        pts_ns >= anchor_pts ==> ((pts_ns - anchor_pts) * w.sample_rate / 1_000_000_000
            - w.expected_frames(pts_ns, at)) % 0x1_0000_0000_0000_0000 == 0,
{
    if pts_ns > anchor_pts {
        let elapsed = (pts_ns - anchor_pts) * w.sample_rate;
        assert(elapsed >= 0) by (nonlinear_arith)
            requires
                elapsed == (pts_ns - anchor_pts) * w.sample_rate,
                pts_ns > anchor_pts,
                w.sample_rate >= 0,
        ;
    } else {
        assert(0int * w.sample_rate == 0);
    }
}

/// The audio keeps up with the device's clock. Take a row of chunks of whole frames and one more
/// that begins `elapsed` behind the first one, in time times rate. What is stored before that
/// chunk, silence included, lags the clock by less than one frame and twenty milliseconds; where
/// silence is put in, it ends just where the clock says that the chunk begins; and where what is
/// stored reaches that place, but for twenty milliseconds, no silence is put in.
pub proof fn lemma_audio_keeps_up_with_the_device(
    start: WindowModel,
    arrivals: Seq<Arrival>,
    next: Arrival,
)
    requires
        is_empty_window(start),
        arrivals.len() > 0,
        all_fit(start, arrivals.push(next)),
        whole_frames(start.channels, arrivals),
        next.chunk.pts_ns >= arrivals[0].chunk.pts_ns,
        (next.chunk.pts_ns - arrivals[0].chunk.pts_ns) * start.sample_rate
            < 0x1_0000_0000_0000_0000 * 1_000_000_000,
    ensures
        ({
            let elapsed = (next.chunk.pts_ns - arrivals[0].chunk.pts_ns) * start.sample_rate;
            let channels = start.channels as int;
            let before = whole_stream(start, arrivals);
            let after = whole_stream(start, arrivals.push(next));
            let silence = after.len() - before.len() - next.chunk.data@.len();
            let stored = before.len() as int / channels;
            let position = (before.len() + silence) / channels;
            // Silence comes in whole frames, behind what is stored, and the chunk behind it.
            &&& silence >= 0 && silence % channels == 0
            &&& forall|i: int|
                0 <= i < before.len() ==> #[trigger] after[i] == before[i]
            &&& forall|i: int|
                before.len() <= i < before.len() + silence ==> #[trigger] after[i] == 0
            &&& forall|i: int|
                0 <= i < next.chunk.data@.len() ==> after[before.len() + silence + i]
                    == #[trigger] next.chunk.data@[i]
            &&& elapsed < (position + 1) * 1_000_000_000 + start.sample_rate * 20_000_000
            &&& silence > 0 ==> position * 1_000_000_000 <= elapsed < (position + 1)
                * 1_000_000_000
            &&& elapsed < (stored + start.sample_rate / 50) * 1_000_000_000 ==> silence == 0
        }),
{
    let all = arrivals.push(next);
    assert(all.drop_last() =~= arrivals);
    lemma_counters_agree(start, arrivals);
    lemma_window_holds_the_most_recent(start, arrivals);
    lemma_first_chunk_is_the_origin(start, arrivals);
    let w = window_after(start, arrivals);
    let (anchor_pts, origin) = w.anchor->0;
    lemma_expected_frame_counts_the_whole_time(w, anchor_pts, origin, next.chunk.pts_ns, next.at);
    let channels = start.channels as int;
    let total = w.total_frames as int;
    let missing = w.missing_frames(next.chunk.pts_ns, next.at) as int;
    let before = whole_stream(start, arrivals);
    let after = whole_stream(start, all);
    let silence = after.len() - before.len() - next.chunk.data@.len();
    assert(missing * channels >= 0) by (nonlinear_arith)
        requires
            missing >= 0,
            channels > 0,
    ;
    assert(after == before + w.addition(next.chunk, next.at));
    assert(silence == missing * channels);
    lemma_mod_multiples_basic(missing, channels);
    lemma_div_multiples_vanish(total, channels);
    assert(before.len() == channels * total) by (nonlinear_arith)
        requires
            before.len() == total * channels,
    ;
    assert(before.len() + silence == channels * (total + missing)) by (nonlinear_arith)
        requires
            before.len() == total * channels,
            silence == missing * channels,
    ;
    lemma_div_multiples_vanish(total + missing, channels);
    if silence > 0 {
        assert(missing > 0) by (nonlinear_arith)
            requires
                silence == missing * channels,
                silence > 0,
                channels > 0,
                missing >= 0,
        ;
    }
}

/// What comes after the end of the timeline is appended as it is: no silence goes before it, no
/// counter changes, and only a first chunk gives the timeline its origin.
pub proof fn lemma_tail_is_appended_as_it_is(w: WindowModel, chunk: AudioChunk, at: PollTime)
    ensures
        ({
            let next = w.with_tail(chunk, at);
            &&& next.ring == w.ring + chunk.data@
            &&& next.total_frames == w.total_frames && next.front_frame == w.front_frame
            &&& next.sample_rate == w.sample_rate && next.channels == w.channels
            &&& next.cap_frames == w.cap_frames
            &&& w.anchor is Some ==> next.anchor == w.anchor
            &&& w.anchor is None ==> (next.anchor matches Some((pts, origin)) && pts
                == chunk.pts_ns && (w.can_anchor(chunk.pts_ns, at) ==> origin.nanos
                == if at.audio_ns > chunk.pts_ns {
                at.now.nanos - (at.audio_ns - chunk.pts_ns)
            } else {
                at.now.nanos as int
            }))
        }),
{
}

/// A chunk is refused for want of room only where a machine number would overflow: a first one
/// where the clocks cannot tell when it was played, any other where its time, the counters or
/// the samples become too large. A timestamp that lies `elapsed` behind the first one calls for
/// at most that many frames of silence.
pub proof fn lemma_room_is_found(w: WindowModel, chunk: AudioChunk, at: PollTime)
    requires
        w.wf(),
        w.total_frames <= 0x3fff_ffff_ffff_ffff,
        w.front_frame <= 0x3fff_ffff_ffff_ffff,
        chunk.frames <= 0x3fff_ffff_ffff_ffff,
        match w.anchor {
            Some((pts, _)) => {
                let elapsed = if chunk.pts_ns > pts {
                    (chunk.pts_ns - pts) * w.sample_rate / 1_000_000_000
                } else {
                    0
                };
                &&& i64::MIN <= chunk.pts_ns - pts <= i64::MAX
                &&& elapsed <= 0x3fff_ffff_ffff_ffff
                &&& w.ring.len() + elapsed * w.channels + chunk.data@.len() <= usize::MAX
                &&& w.ring.len() + elapsed * w.channels + chunk.data@.len()
                    <= 0x3fff_ffff_ffff_ffff
            },
            None => {
                &&& i64::MIN <= at.audio_ns - chunk.pts_ns <= i64::MAX
                &&& at.audio_ns - chunk.pts_ns <= at.now.nanos
                &&& w.ring.len() + chunk.data@.len() <= usize::MAX
                &&& w.ring.len() + chunk.data@.len() <= 0x3fff_ffff_ffff_ffff
            },
        },
    ensures
        w.can_anchor(chunk.pts_ns, at),
        w.fits(chunk, at),
{
    let missing = w.missing_frames(chunk.pts_ns, at) as int;
    let channels = w.channels as int;
    match w.anchor {
        Some((pts, _)) => {
            if chunk.pts_ns > pts {
                let elapsed = (chunk.pts_ns - pts) * w.sample_rate / 1_000_000_000;
                assert((chunk.pts_ns - pts) * w.sample_rate >= 0) by (nonlinear_arith)
                    requires
                        chunk.pts_ns > pts,
                        w.sample_rate >= 0,
                ;
                assert(missing <= elapsed);
                assert(missing * channels <= elapsed * channels) by (nonlinear_arith)
                    requires
                        missing <= elapsed,
                        channels > 0,
                ;
            } else {
                assert(missing == 0);
                assert(0 * channels == 0);
            }
        },
        None => {
            assert(missing == 0);
            assert(0 * channels == 0);
        },
    }
}

/// The end is refused only where the clock cannot express the time of the first sample retained:
/// never while origin and playing time stay below half of what it can.
pub proof fn lemma_end_is_found(w: WindowModel)
    requires
        w.wf(),
        w.sample_rate > 0,
        w.front_frame + w.ring.len() <= 0x3fff_ffff_ffff_ffff,
        (w.front_frame + w.ring.len()) * 1_000_000_000 <= 0x3fff_ffff_ffff_ffff * w.sample_rate,
        w.anchor matches Some((_, origin)) ==> origin.nanos <= 0x3fff_ffff_ffff_ffff,
    ensures
        w.finishable(),
{
    let channels = w.channels as nat;
    let held = w.ring.len() / channels;
    assert(held <= w.ring.len()) by (nonlinear_arith)
        requires
            held == w.ring.len() / channels,
            channels > 0,
    ;
    let front = w.trimmed().front_frame as nat;
    let rate = w.sample_rate as nat;
    assert(front <= w.front_frame + w.ring.len());
    double::lemma_nanos_are_near(front, rate);
    let t = double::nanos_of(front, rate);
    assert(t <= 0x7fff_ffff_ffff_ffff) by (nonlinear_arith)
        requires
            0x20_0000_0000_0000 * (2 * (t * rate) - 2 * (front * 1_000_000_000))
                <= 0x20_0000_0000_0000 * rate + 6 * (front * 1_000_000_000),
            front * 1_000_000_000 <= 0x3fff_ffff_ffff_ffff * rate,
            rate > 0,
    ;
}

/// A new window is empty and lasts as many seconds as it is to keep, at the rate of the stream; a
/// stream without channels is taken for one of a single channel.
pub proof fn lemma_new_window_lasts_its_seconds(keep_secs: u32, sample_rate: u32, channels: u16)
    requires
        keep_secs * sample_rate <= usize::MAX,
    ensures
        ({
            let w = WindowModel::empty(keep_secs, sample_rate, channels);
            &&& is_empty_window(w)
            &&& w.sample_rate == sample_rate
            &&& channels > 0 ==> w.channels == channels
            &&& channels == 0 ==> w.channels == 1
            &&& sample_rate > 0 ==> w.cap_frames as int / sample_rate as int == keep_secs
                && w.cap_frames as int % sample_rate as int == 0
            &&& sample_rate == 0 ==> w.cap_frames == 0
        }),
{
    let w = WindowModel::empty(keep_secs, sample_rate, channels);
    let keep = keep_secs as int;
    let rate = sample_rate as int;
    assert(keep * rate >= 0) by (nonlinear_arith)
        requires
            keep >= 0,
            rate >= 0,
    ;
    if rate > 0 {
        assert((keep * rate) / rate == keep && (keep * rate) % rate == 0) by (nonlinear_arith)
            requires
                rate > 0,
        ;
    } else {
        assert(keep * rate == 0) by (nonlinear_arith)
            requires
                rate == 0,
        ;
    }
}

} // verus!
