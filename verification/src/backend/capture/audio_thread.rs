//! The loop of the audio capture thread.

use vstd::arithmetic::div_mod::*;
use vstd::prelude::*;

use crate::backend::capture::audio;
use crate::backend::capture::audio::AudioTrack;
use crate::backend::capture::retention;
use crate::backend::capture::retention::{AudioChunk, AudioWindow, PollTime, WindowModel};
use crate::util::clock;

verus! {

/// Milliseconds that the thread sleeps after a poll that brought nothing. Chunks last twenty,
/// so latency stays low without busy-spinning.
pub const POLL_PAUSE_MS: u64 = 5;

/// What the thread is doing.
#[derive(Debug, Clone, Copy, PartialEq, Eq, Structural)]
pub enum Phase {
    /// Chunks are being polled; whether one came since the last look at the shutdown signal.
    PollingChunks(bool),
    /// The stream's events are being drained.
    DrainingEvents(bool),
    /// The shutdown signal is being looked at.
    PollingShutdown(bool),
    Sleeping,
    /// The stream is being stopped.
    Stopping,
    /// What the stream still holds is being polled.
    PollingTail,
    Finished,
}

/// What happened in the world.
pub enum Event {
    /// A chunk was polled, at this time.
    Chunk(AudioChunk, PollTime),
    /// There was no chunk.
    NoChunk,
    /// The stream has no event left.
    EventsDrained,
    /// Whether the shutdown signal was there.
    Shutdown(bool),
    Slept,
    Stopped,
}

/// What is to be done next.
#[derive(Debug, Clone, Copy, PartialEq, Eq, Structural)]
pub enum Action {
    PollChunk,
    DrainEvents,
    PollShutdown,
    /// Sleep for `POLL_PAUSE_MS`.
    Sleep,
    StopStream,
    /// Hand out what was captured.
    Finish,
}

/// The state of the thread.
pub struct ThreadModel {
    pub window: WindowModel,
    pub phase: Phase,
}

impl ThreadModel {
    pub open spec fn enter(self, phase: Phase) -> ThreadModel {
        ThreadModel { phase, ..self }
    }

    /// What is to be done now.
    pub open spec fn next_action(self) -> Action {
        match self.phase {
            Phase::PollingChunks(_) | Phase::PollingTail => Action::PollChunk,
            Phase::DrainingEvents(_) => Action::DrainEvents,
            Phase::PollingShutdown(_) => Action::PollShutdown,
            Phase::Sleeping => Action::Sleep,
            Phase::Stopping => Action::StopStream,
            Phase::Finished => Action::Finish,
        }
    }

    /// `event` answers what the thread waits for, and a chunk has room.
    pub open spec fn accepts(self, event: Event) -> bool {
        match self.phase {
            Phase::PollingChunks(_) => match event {
                Event::Chunk(chunk, at) => self.window.fits(chunk, at),
                _ => event is NoChunk,
            },
            Phase::DrainingEvents(_) => event is EventsDrained,
            Phase::PollingShutdown(_) => event is Shutdown,
            Phase::Sleeping => event is Slept,
            Phase::Stopping => event is Stopped,
            Phase::PollingTail => match event {
                Event::Chunk(chunk, at) => self.window.can_anchor(chunk.pts_ns, at),
                _ => event is NoChunk,
            },
            Phase::Finished => false,
        }
    }

    /// The state after `event`.
    pub open spec fn after(self, event: Event) -> ThreadModel {
        match (self.phase, event) {
            (Phase::PollingChunks(_), Event::Chunk(chunk, at)) => ThreadModel {
                window: self.window.extended(chunk, at).trimmed(),
                phase: Phase::PollingChunks(true),
            },
            (Phase::PollingChunks(got), _) => self.enter(Phase::DrainingEvents(got)),
            (Phase::DrainingEvents(got), _) => self.enter(Phase::PollingShutdown(got)),
            (Phase::PollingShutdown(_), Event::Shutdown(true)) => self.enter(Phase::Stopping),
            (Phase::PollingShutdown(got), _) => self.enter(
                if got {
                    Phase::PollingChunks(false)
                } else {
                    Phase::Sleeping
                },
            ),
            (Phase::Sleeping, _) => self.enter(Phase::PollingChunks(false)),
            (Phase::Stopping, _) => self.enter(Phase::PollingTail),
            (Phase::PollingTail, Event::Chunk(chunk, at)) => ThreadModel {
                window: self.window.with_tail(chunk, at),
                ..self
            },
            _ => self.enter(Phase::Finished),
        }
    }
}

/// The audio capture thread. It decides; the caller performs the actions and reports the
/// events.
pub struct AudioThread {
    window: AudioWindow,
    phase: Phase,
}

impl View for AudioThread {
    type V = ThreadModel;

    closed spec fn view(&self) -> ThreadModel {
        ThreadModel { window: self.window@, phase: self.phase }
    }
}

impl AudioThread {
    /// A thread that keeps `keep_secs` seconds of audio of this format.
    pub fn new(keep_secs: u32, sample_rate: u32, channels: u16) -> (thread: AudioThread)
        requires
            keep_secs * sample_rate <= usize::MAX,
        ensures
            thread@.window == WindowModel::empty(keep_secs, sample_rate, channels),
            is_start(thread@),
            thread@ == (ThreadModel {
                window: WindowModel {
                    sample_rate,
                    channels: clock::at_least_one(channels as nat) as u16,
                    cap_frames: (keep_secs * sample_rate) as usize,
                    anchor: None,
                    total_frames: 0,
                    front_frame: 0,
                    ring: Seq::empty(),
                },
                phase: Phase::PollingChunks(false),
            }),
            thread@.window.wf(),
    {
        AudioThread {
            window: AudioWindow::new(keep_secs, sample_rate, channels),
            phase: Phase::PollingChunks(false),
        }
    }

    /// What is to be done now.
    pub fn action(&self) -> (action: Action)
        ensures
            action == self@.next_action(),
    {
        match self.phase {
            Phase::PollingChunks(_) => Action::PollChunk,
            Phase::PollingTail => Action::PollChunk,
            Phase::DrainingEvents(_) => Action::DrainEvents,
            Phase::PollingShutdown(_) => Action::PollShutdown,
            Phase::Sleeping => Action::Sleep,
            Phase::Stopping => Action::StopStream,
            Phase::Finished => Action::Finish,
        }
    }

    /// Whether a chunk that is polled now has room.
    pub fn has_room(&self, chunk: &AudioChunk, at: PollTime) -> (room: bool)
        requires
            self@.window.wf(),
        ensures
            room == match self@.phase {
                Phase::PollingChunks(_) => self@.window.fits(*chunk, at),
                _ => self@.window.can_anchor(chunk.pts_ns, at),
            },
    {
        match self.phase {
            Phase::PollingChunks(_) => self.window.has_room(chunk, at),
            _ => self.window.has_origin(chunk, at),
        }
    }

    /// Takes note of what happened; `action` then says what is to be done.
    pub fn step(&mut self, event: Event)
        requires
            old(self)@.window.wf(),
            old(self)@.accepts(event),
        ensures
            final(self)@ == old(self)@.after(event),
            final(self)@.window.wf(),
    {
        match (self.phase, event) {
            (Phase::PollingChunks(_), Event::Chunk(chunk, at)) => {
                self.window.push_chunk(&chunk, at);
                self.phase = Phase::PollingChunks(true);
            },
            (Phase::PollingChunks(got), _) => {
                self.phase = Phase::DrainingEvents(got);
            },
            (Phase::DrainingEvents(got), _) => {
                self.phase = Phase::PollingShutdown(got);
            },
            (Phase::PollingShutdown(_), Event::Shutdown(true)) => {
                self.phase = Phase::Stopping;
            },
            (Phase::PollingShutdown(got), _) => {
                self.phase = if got {
                    Phase::PollingChunks(false)
                } else {
                    Phase::Sleeping
                };
            },
            (Phase::Sleeping, _) => {
                self.phase = Phase::PollingChunks(false);
            },
            (Phase::Stopping, _) => {
                self.phase = Phase::PollingTail;
            },
            (Phase::PollingTail, Event::Chunk(chunk, at)) => {
                self.window.push_tail(&chunk, at);
            },
            _ => {
                self.phase = Phase::Finished;
            },
        }
    }

    /// Whether `finish` can give the wall-clock time of the first sample retained.
    pub fn can_finish(&self) -> (can: bool)
        requires
            self@.window.wf(),
        ensures
            can == self@.window.finishable(),
    {
        self.window.can_finish()
    }

    /// The audio that is retained, with the wall-clock time of its first sample. There is none
    /// where no sample came or none is left.
    pub fn finish(self) -> (track: Option<AudioTrack>)
        requires
            self@.window.wf(),
            self@.window.finishable(),
        ensures
            track is None <==> self@.window.yields_nothing(),
            track matches Some(t) ==> {
                &&& t.samples@ == self@.window.trimmed().ring
                &&& t.sample_rate == self@.window.sample_rate
                &&& t.channels == self@.window.channels
                &&& self@.window.anchor matches Some((_, origin)) && t.start.nanos == origin.nanos
                    + audio::playing_time(
                    self@.window.trimmed().front_frame as nat,
                    self@.window.sample_rate as nat,
                )
            },
    {
        self.window.finish()
    }
}

/// The thread looks at the shutdown signal after every round of polling, sleeps only after a
/// round that brought nothing, and after the signal only collects what is still there: the
/// counters stay as they are, and so does the origin of the timeline once it has one.
pub proof fn lemma_shutdown_finishes_the_timeline(s: ThreadModel, event: Event)
    requires
        s.accepts(event),
    ensures
        s.after(event).phase is Sleeping ==> s.phase == Phase::PollingShutdown(false),
        s.phase is PollingShutdown && event == Event::Shutdown(true) ==> s.after(event).phase
            is Stopping,
        s.phase is Stopping || s.phase is PollingTail ==> {
            let next = s.after(event);
            &&& next.phase is PollingTail || next.phase is Finished
            &&& s.window.anchor is Some ==> next.window.anchor == s.window.anchor
            &&& next.window.total_frames == s.window.total_frames
            &&& next.window.front_frame == s.window.front_frame
            &&& s.window.ring.len() <= next.window.ring.len()
            &&& next.window.ring.take(s.window.ring.len() as int) == s.window.ring
        },
{
    if s.phase is Stopping || s.phase is PollingTail {
        assert(s.after(event).window.ring.take(s.window.ring.len() as int) =~= s.window.ring);
    }
}

/// The state that a row of events leads to.
pub open spec fn state_after(start: ThreadModel, events: Seq<Event>) -> ThreadModel
    decreases events.len(),
{
    if events.len() == 0 {
        start
    } else {
        state_after(start, events.drop_last()).after(events.last())
    }
}

/// Every event of the row answers what the thread waits for when it happens.
pub open spec fn is_run(start: ThreadModel, events: Seq<Event>) -> bool
    decreases events.len(),
{
    events.len() > 0 ==> {
        &&& is_run(start, events.drop_last())
        &&& state_after(start, events.drop_last()).accepts(events.last())
    }
}

/// The samples that `event` adds in state `s`: those of a chunk and the silence in the gap
/// before it, and after the end of the timeline those of a chunk alone.
pub open spec fn added_by(s: ThreadModel, event: Event) -> Seq<i16> {
    match (s.phase, event) {
        (Phase::PollingChunks(_), Event::Chunk(chunk, at)) => s.window.addition(chunk, at),
        (Phase::PollingTail, Event::Chunk(chunk, _)) => chunk.data@,
        _ => Seq::empty(),
    }
}

/// All that was polled in the course of a row of events, silence in the gaps included.
pub open spec fn all_polled(start: ThreadModel, events: Seq<Event>) -> Seq<i16>
    decreases events.len(),
{
    if events.len() == 0 {
        Seq::empty()
    } else {
        all_polled(start, events.drop_last()) + added_by(
            state_after(start, events.drop_last()),
            events.last(),
        )
    }
}

/// A thread that has polled nothing yet.
pub open spec fn is_start(s: ThreadModel) -> bool {
    s.phase == Phase::PollingChunks(false) && retention::is_empty_window(s.window)
}

/// At every moment of every run the window holds the most recent audio of all that was polled:
/// while the timeline runs it is cut to its length, and after its end it is once it is trimmed.
pub proof fn lemma_thread_holds_the_most_recent(start: ThreadModel, events: Seq<Event>)
    requires
        is_start(start),
        is_run(start, events),
    ensures
        ({
            let s = state_after(start, events);
            let w = s.window;
            let stream = all_polled(start, events);
            &&& w.wf()
            &&& w.channels == start.window.channels
            &&& w.sample_rate == start.window.sample_rate
            &&& w.cap_frames == start.window.cap_frames
            &&& retention::holds_recent(w, stream)
            &&& !(s.phase is PollingTail || s.phase is Finished) ==> retention::holds_most_recent(
                w,
                stream,
            )
            &&& w.front_frame + w.ring.len() <= u64::MAX ==> retention::holds_most_recent(
                w.trimmed(),
                stream,
            )
        }),
    decreases events.len(),
{
    let s = state_after(start, events);
    let stream = all_polled(start, events);
    if events.len() == 0 {
        retention::lemma_nothing_is_most_recent(start.window);
        assert(stream =~= Seq::<i16>::empty());
    } else {
        lemma_thread_holds_the_most_recent(start, events.drop_last());
        let before = state_after(start, events.drop_last());
        let earlier = all_polled(start, events.drop_last());
        let more = added_by(before, events.last());
        match (before.phase, events.last()) {
            (Phase::PollingChunks(_), Event::Chunk(chunk, at)) => {
                let grown = before.window.extended(chunk, at);
                retention::lemma_growing_keeps_recent(before.window, grown, earlier, more);
                retention::lemma_trimming_keeps_most_recent(grown, stream);
            },
            (Phase::PollingTail, Event::Chunk(_, _)) => {
                retention::lemma_growing_keeps_recent(before.window, s.window, earlier, more);
            },
            _ => {
                assert(stream =~= earlier);
            },
        }
    }
    if s.window.front_frame + s.window.ring.len() <= u64::MAX {
        retention::lemma_trimming_keeps_most_recent(s.window, stream);
    }
}

/// Every chunk of the row holds whole frames of `channels` channels.
pub open spec fn whole_chunks(channels: u16, events: Seq<Event>) -> bool {
    forall|i: int|
        0 <= i < events.len() ==> (#[trigger] events[i] matches Event::Chunk(chunk, _)
            ==> chunk.data@.len() % channels as nat == 0)
}

proof fn lemma_whole_frames_add(earlier: int, missing: int, data: int, channels: int)
    requires
        channels > 0,
        earlier % channels == 0,
        data % channels == 0,
    ensures
        (earlier + missing * channels + data) % channels == 0,
{
    let frames = earlier / channels + missing + data / channels;
    lemma_fundamental_div_mod(earlier, channels);
    lemma_fundamental_div_mod(data, channels);
    assert(earlier + missing * channels + data == frames * channels) by (nonlinear_arith)
        requires
            earlier == channels * (earlier / channels),
            data == channels * (data / channels),
            frames == earlier / channels + missing + data / channels,
    ;
    lemma_mod_multiples_basic(frames, channels);
}

proof fn lemma_polled_whole_frames(start: ThreadModel, events: Seq<Event>)
    requires
        is_start(start),
        is_run(start, events),
        whole_chunks(start.window.channels, events),
    ensures
        all_polled(start, events).len() % start.window.channels as nat == 0,
    decreases events.len(),
{
    let channels = start.window.channels as int;
    if events.len() == 0 {
        assert(0int % channels == 0) by (nonlinear_arith)
            requires
                channels > 0,
        ;
    } else {
        let rest = events.drop_last();
        assert(whole_chunks(start.window.channels, rest)) by {
            assert forall|i: int| 0 <= i < rest.len() implies (#[trigger] rest[i] matches Event::Chunk(
                chunk,
                _,
            ) ==> chunk.data@.len() % start.window.channels as nat == 0) by {
                assert(rest[i] == events[i]);
            }
        }
        lemma_polled_whole_frames(start, rest);
        lemma_thread_holds_the_most_recent(start, rest);
        let before = state_after(start, rest);
        let earlier = all_polled(start, rest).len() as int;
        let last = events[events.len() - 1];
        if let Event::Chunk(chunk, at) = last {
            let missing = before.window.missing_frames(chunk.pts_ns, at) as int;
            let data = chunk.data@.len() as int;
            assert(missing * channels >= 0) by (nonlinear_arith)
                requires
                    missing >= 0,
                    channels > 0,
            ;
            lemma_whole_frames_add(earlier, 0, data, channels);
            lemma_whole_frames_add(earlier, missing, data, channels);
        }
    }
}

/// What the thread hands out in the end is the end of all that was polled: as many samples as
/// the window has seconds, times the rate, times the channels, or all of them where there are
/// fewer. What was polled only after the stream was stopped is part of it.
pub proof fn lemma_track_is_the_most_recent(start: ThreadModel, events: Seq<Event>)
    requires
        is_start(start),
        is_run(start, events),
        whole_chunks(start.window.channels, events),
        state_after(start, events).window.finishable(),
    ensures
        ({
            let stream = all_polled(start, events);
            let most = start.window.cap_frames * start.window.channels;
            let track = state_after(start, events).window.trimmed().ring;
            &&& track == if stream.len() > most {
                stream.skip(stream.len() - most)
            } else {
                stream
            }
            &&& state_after(start, events).window.yields_nothing() <==> stream.len() == 0 || most
                == 0
        }),
{
    lemma_thread_holds_the_most_recent(start, events);
    lemma_polled_whole_frames(start, events);
    retention::lemma_most_recent_are_the_last_samples(
        state_after(start, events).window.trimmed(),
        all_polled(start, events),
    );
}

/// What is done in answer to each event. Chunks are polled until there is none; then the
/// stream's events are drained and the shutdown signal is looked at. After the signal the stream
/// is stopped, and what it still holds is polled until there is none. While the timeline runs, a
/// chunk goes into the window with its gap, and after its end as it is; nothing else touches the
/// window.
pub proof fn lemma_answers_lead_on(s: ThreadModel, event: Event)
    requires
        s.accepts(event),
    ensures
        ({
            let next = s.after(event);
            let job = next.next_action();
            &&& match (s.next_action(), event) {
                (Action::PollChunk, Event::Chunk(chunk, at)) => job == Action::PollChunk
                    && next.window == if s.phase is PollingTail {
                    s.window.with_tail(chunk, at)
                } else {
                    s.window.extended(chunk, at).trimmed()
                },
                (Action::PollChunk, Event::NoChunk) => job == if s.phase is PollingTail {
                    Action::Finish
                } else {
                    Action::DrainEvents
                },
                (Action::DrainEvents, Event::EventsDrained) => job == Action::PollShutdown,
                (Action::PollShutdown, Event::Shutdown(signal)) => if signal {
                    job == Action::StopStream
                } else {
                    job == Action::Sleep || job == Action::PollChunk
                },
                (Action::Sleep, Event::Slept) => job == Action::PollChunk,
                (Action::StopStream, Event::Stopped) => job == Action::PollChunk,
                _ => false,
            }
            &&& !(event is Chunk) ==> next.window == s.window
            &&& next.phase is PollingTail ==> s.phase is PollingTail || event is Stopped
            &&& s.phase is PollingTail && next.next_action() == Action::PollChunk ==> next.phase
                is PollingTail
        }),
{
}

/// Whatever can come of an action is accepted: only a chunk for which there is no room is not.
pub proof fn lemma_every_answer_is_accepted(s: ThreadModel, event: Event)
    ensures
        s.accepts(event) <==> match s.next_action() {
            Action::PollChunk => match event {
                Event::Chunk(chunk, at) => if s.phase is PollingTail {
                    s.window.can_anchor(chunk.pts_ns, at)
                } else {
                    s.window.fits(chunk, at)
                },
                _ => event is NoChunk,
            },
            Action::DrainEvents => event is EventsDrained,
            Action::PollShutdown => event is Shutdown,
            Action::Sleep => event is Slept,
            Action::StopStream => event is Stopped,
            Action::Finish => false,
        },
{
}

/// A chunk has come since the last look at the shutdown signal.
pub open spec fn chunk_since_last_look(events: Seq<Event>) -> bool
    decreases events.len(),
{
    if events.len() == 0 {
        false
    } else {
        match events.last() {
            Event::Chunk(_, _) => true,
            Event::Shutdown(_) => false,
            _ => chunk_since_last_look(events.drop_last()),
        }
    }
}

/// The thread sleeps only where a whole round of polling brought nothing, and there it always
/// does; where a chunk came, it polls again at once.
pub proof fn lemma_sleep_follows_an_empty_round(start: ThreadModel, events: Seq<Event>)
    requires
        is_start(start),
        is_run(start, events),
    ensures
        ({
            let s = state_after(start, events);
            &&& s.next_action() == Action::PollShutdown ==> s.after(
                Event::Shutdown(false),
            ).next_action() == if chunk_since_last_look(events) {
                Action::PollChunk
            } else {
                Action::Sleep
            }
            &&& s.phase is Sleeping ==> !chunk_since_last_look(events)
            &&& match s.phase {
                Phase::PollingChunks(got)
                | Phase::DrainingEvents(got)
                | Phase::PollingShutdown(got) => got == chunk_since_last_look(events),
                _ => true,
            }
        }),
    decreases events.len(),
{
    if events.len() > 0 {
        lemma_sleep_follows_an_empty_round(start, events.drop_last());
    }
}

/// The thread polls two hundred times a second while nothing comes.
pub proof fn lemma_pauses_are_short()
    ensures
        POLL_PAUSE_MS * 200 == 1000,
{
}

} // verus!
