//! The video encoder's loop: constant frame rate pacing, so that the video timeline stays
//! locked to the wall clock.

use std::sync::Arc;
use vstd::prelude::*;

use crate::util::clock::{Moment, NANOS_PER_SEC};
use crate::util::double::count_units;
use crate::util::{double, text};

verus! {

/// One captured frame.
#[derive(Clone)]
pub struct FrameChunk {
    pub data: Arc<[u8]>,
    pub width: u32,
    pub height: u32,
    pub timestamp: Moment,
}

/// Most duplicates that one gap is filled with.
pub const MAX_FILL: u64 = 600;

/// Milliseconds for which a frame is waited for.
pub const RECEIVE_TIMEOUT_MS: u64 = 100;

/// Frames between two flushes of the encoder's input.
pub const FLUSH_EVERY: u64 = 30;

/// How many frame slots are due at `t` when slot zero is at `first`.
pub open spec fn slot_at(first: Moment, fps: u32, t: Moment) -> nat {
    let due = double::whole_units(t.since(first), fps as nat);
    if due > u64::MAX {
        u64::MAX as nat
    } else {
        due
    }
}

/// How many frame slots are due at `t` when slot zero is at `first`.
pub fn due_slots(first: Moment, fps: u32, t: Moment) -> (slots: u64)
    ensures
        slots == slot_at(first, fps, t),
{
    let elapsed: u64 = t.saturating_duration_since(first);
    let due: u128 = count_units(elapsed, fps);
    if due > 0xffff_ffff_ffff_ffff {
        0xffff_ffff_ffff_ffff
    } else {
        due as u64
    }
}

/// The slots due at `t` are off from the time since `first` by at most half a slot and five parts
/// in 2 to the 53rd.
pub proof fn lemma_slots_follow_the_clock(first: Moment, fps: u32, t: Moment)
    requires
        slot_at(first, fps, t) < u64::MAX,
    ensures
        ({
            let exact = t.since(first) * fps;
            let slots = slot_at(first, fps, t) * NANOS_PER_SEC;
            let slack = double::BEYOND * NANOS_PER_SEC + 10 * exact;
            -slack <= double::BEYOND * (2 * slots - 2 * exact) <= slack
        }),
{
    double::lemma_whole_units_are_near(t.since(first), fps as nat);
}

/// How many duplicates bring a timeline of `frame_count` frames up to `target_slot`, at
/// most `MAX_FILL`.
pub open spec fn fill(frame_count: u64, target_slot: nat) -> nat {
    if target_slot <= frame_count {
        0
    } else if target_slot - frame_count <= MAX_FILL {
        (target_slot - frame_count) as nat
    } else {
        MAX_FILL as nat
    }
}

/// How many times the last frame is to be repeated so that `frame_count` reaches
/// `target_slot`, keeping the video timeline locked to the wall clock when the capture API
/// emits no frames.
///
/// The fill is capped so that a long stall (window minimised, machine suspended) cannot
/// blow up into a huge burst of writes.
pub fn pad_frames(frame_count: u64, target_slot: u64) -> (missing: u64)
    ensures
        missing == fill(frame_count, target_slot as nat),
        missing <= MAX_FILL,
        frame_count + missing <= u64::MAX,
{
    if target_slot <= frame_count {
        0
    } else if target_slot - frame_count <= MAX_FILL {
        target_slot - frame_count
    } else {
        MAX_FILL
    }
}

/// What the encoder waits for.
#[derive(Debug, Clone, Copy, PartialEq, Eq, Structural)]
pub enum Phase {
    /// The first frame is being written.
    FirstFrame,
    /// The next frame is awaited.
    Receiving,
    /// So many duplicates are being written before the frame that has arrived.
    PaddingBeforeFrame(u64),
    /// The frame that has arrived is being written.
    WritingFrame,
    /// The input is being flushed after a frame.
    Flushing,
    /// So many duplicates are being written because no frame arrived.
    PaddingIdle(u64),
    /// The input is being flushed and the shutdown signal looked at.
    PollingShutdown,
    /// The clock is being read.
    ReadingClock,
    /// Stale segments are being deleted.
    Pruning,
    /// The input is to be closed.
    Finished,
}

/// What happened in the world.
pub enum Event {
    /// The frame that was to be written has been written.
    Wrote,
    /// The frame that was to be written has not been written.
    WriteFailed,
    /// A frame has arrived.
    Frame(FrameChunk),
    /// No frame has arrived in time; the clock reads this.
    Idle(Moment),
    /// No frame will arrive any more.
    Disconnected,
    /// So many of the duplicates have been written; fewer than asked for if a write failed.
    Padded(u64),
    /// The input has been flushed.
    Flushed,
    /// The input has been flushed; whether the shutdown signal was there.
    Polled(bool),
    /// The clock reads this.
    Clock(Moment),
    /// Stale segments are gone; the clock reads this.
    Pruned(Moment),
}

/// What is to be done next.
#[derive(Debug, Clone, Copy, PartialEq, Eq, Structural)]
pub enum Action {
    /// Wait for the next frame, for `RECEIVE_TIMEOUT_MS` at most.
    Receive,
    /// Write the last frame so many times.
    WriteDuplicates(u64),
    /// Write the frame that has arrived.
    WriteFrame,
    /// Flush the input.
    Flush,
    /// Flush the input and look at the shutdown signal.
    FlushAndPoll,
    /// Read the clock.
    ReadClock,
    /// Delete stale segments and read the clock.
    Prune,
    /// Close the input and finalize the recording.
    Finish,
}

/// The state of the encoder's loop.
pub struct EncoderModel {
    /// Wall-clock time of the first frame: presentation time zero of the whole footage.
    pub first: Moment,
    pub fps: u32,
    /// Frames handed to the encoder, duplicates included.
    pub frame_count: u64,
    /// Duplicates among them.
    pub duplicated: u64,
    pub last_cleanup: Moment,
    /// The frame that duplicates repeat.
    pub last: Seq<u8>,
    /// The frame that has arrived and is not written yet.
    pub pending: Seq<u8>,
    pub phase: Phase,
}

impl EncoderModel {
    /// The counters agree with each other and leave room for the duplicates under way.
    pub open spec fn wf(self) -> bool {
        &&& self.duplicated <= self.frame_count
        &&& match self.phase {
            Phase::FirstFrame => self.frame_count == 0,
            Phase::PaddingBeforeFrame(n) | Phase::PaddingIdle(n) => {
                0 < n <= MAX_FILL && self.frame_count + n <= u64::MAX
            },
            _ => true,
        }
    }

    /// `event` answers what the phase waits for.
    pub open spec fn accepts(self, event: Event) -> bool {
        match self.phase {
            Phase::FirstFrame => event is Wrote || event is WriteFailed,
            Phase::Receiving => event is Frame || event is Idle || event is Disconnected,
            Phase::PaddingBeforeFrame(n) | Phase::PaddingIdle(n) => event matches Event::Padded(w)
                && w <= n,
            Phase::WritingFrame => event is WriteFailed || (event is Wrote && self.frame_count
                < u64::MAX),
            Phase::Flushing => event is Flushed,
            Phase::PollingShutdown => event is Polled,
            Phase::ReadingClock => event is Clock,
            Phase::Pruning => event is Pruned,
            Phase::Finished => false,
        }
    }

    /// The action that a phase asks for.
    pub open spec fn action(self) -> Action {
        match self.phase {
            Phase::FirstFrame | Phase::WritingFrame => Action::WriteFrame,
            Phase::Receiving => Action::Receive,
            Phase::PaddingBeforeFrame(n) | Phase::PaddingIdle(n) => Action::WriteDuplicates(n),
            Phase::Flushing => Action::Flush,
            Phase::PollingShutdown => Action::FlushAndPoll,
            Phase::ReadingClock => Action::ReadClock,
            Phase::Pruning => Action::Prune,
            Phase::Finished => Action::Finish,
        }
    }

    pub open spec fn enter(self, phase: Phase) -> EncoderModel {
        EncoderModel { phase, ..self }
    }

    /// A frame has arrived: the gap before it is filled, then it is written.
    pub open spec fn on_frame(self, chunk: FrameChunk) -> EncoderModel {
        let missing = fill(self.frame_count, slot_at(self.first, self.fps, chunk.timestamp));
        EncoderModel { pending: (*chunk.data)@, ..self }.enter(
            if missing > 0 {
                Phase::PaddingBeforeFrame(missing as u64)
            } else {
                Phase::WritingFrame
            },
        )
    }

    /// Nothing has changed on screen: the timeline is moved on to `now`.
    pub open spec fn on_idle(self, now: Moment) -> EncoderModel {
        let missing = fill(self.frame_count, slot_at(self.first, self.fps, now));
        self.enter(
            if missing > 0 {
                Phase::PaddingIdle(missing as u64)
            } else {
                Phase::PollingShutdown
            },
        )
    }

    /// Of `asked` duplicates `written` were written; a failed write ends the recording.
    pub open spec fn on_padded(self, asked: u64, written: u64, then: Phase) -> EncoderModel {
        let counted = EncoderModel { frame_count: (self.frame_count + written) as u64, ..self };
        if written == asked {
            EncoderModel { duplicated: (self.duplicated + asked) as u64, ..counted }.enter(then)
        } else {
            counted.enter(Phase::Finished)
        }
    }

    /// The frame that arrived is on the timeline and is what duplicates repeat from now on.
    pub open spec fn on_written(self) -> EncoderModel {
        let count = (self.frame_count + 1) as u64;
        EncoderModel { frame_count: count, last: self.pending, ..self }.enter(
            if count % FLUSH_EVERY == 0 {
                Phase::Flushing
            } else {
                Phase::ReadingClock
            },
        )
    }

    /// The state after `event`.
    pub open spec fn after(self, event: Event) -> EncoderModel {
        match (self.phase, event) {
            (Phase::FirstFrame, Event::Wrote) => EncoderModel { frame_count: 1, ..self }.enter(
                Phase::Receiving,
            ),
            (Phase::Receiving, Event::Frame(chunk)) => self.on_frame(chunk),
            (Phase::Receiving, Event::Idle(now)) => self.on_idle(now),
            (Phase::PaddingBeforeFrame(n), Event::Padded(w)) => self.on_padded(
                n,
                w,
                Phase::WritingFrame,
            ),
            (Phase::PaddingIdle(n), Event::Padded(w)) => self.on_padded(
                n,
                w,
                Phase::PollingShutdown,
            ),
            (Phase::WritingFrame, Event::Wrote) => self.on_written(),
            (Phase::Flushing, Event::Flushed) => self.enter(Phase::ReadingClock),
            (Phase::PollingShutdown, Event::Polled(false)) => self.enter(Phase::ReadingClock),
            (Phase::ReadingClock, Event::Clock(now)) => self.enter(
                if now.since(self.last_cleanup) >= NANOS_PER_SEC {
                    Phase::Pruning
                } else {
                    Phase::Receiving
                },
            ),
            (Phase::Pruning, Event::Pruned(now)) => EncoderModel {
                last_cleanup: now,
                ..self
            }.enter(Phase::Receiving),
            _ => self.enter(Phase::Finished),
        }
    }
}

/// The encoder's loop. It decides; the caller performs the actions and reports the events.
pub struct Encoder {
    first: Moment,
    fps: u32,
    frame_count: u64,
    duplicated: u64,
    last_cleanup: Moment,
    last: Arc<[u8]>,
    pending: Option<Arc<[u8]>>,
    phase: Phase,
}

impl View for Encoder {
    type V = EncoderModel;

    closed spec fn view(&self) -> EncoderModel {
        EncoderModel {
            first: self.first,
            fps: self.fps,
            frame_count: self.frame_count,
            duplicated: self.duplicated,
            last_cleanup: self.last_cleanup,
            last: (*self.last)@,
            pending: match self.pending {
                Some(data) => (*data)@,
                None => (*self.last)@,
            },
            phase: self.phase,
        }
    }
}

impl Encoder {
    /// Starts with the first frame, which is to be written first of all.
    pub fn new(first_frame: FrameChunk, fps: u32, now: Moment) -> (encoder: Encoder)
        ensures
            encoder@ == (EncoderModel {
                first: first_frame.timestamp,
                fps,
                frame_count: 0,
                duplicated: 0,
                last_cleanup: now,
                last: (*first_frame.data)@,
                pending: (*first_frame.data)@,
                phase: Phase::FirstFrame,
            }),
            encoder@.wf(),
    {
        Encoder {
            first: first_frame.timestamp,
            fps,
            frame_count: 0,
            duplicated: 0,
            last_cleanup: now,
            last: first_frame.data,
            pending: None,
            phase: Phase::FirstFrame,
        }
    }

    /// What is to be done now.
    pub fn action(&self) -> (action: Action)
        ensures
            action == self@.action(),
    {
        match self.phase {
            Phase::FirstFrame | Phase::WritingFrame => Action::WriteFrame,
            Phase::Receiving => Action::Receive,
            Phase::PaddingBeforeFrame(n) => Action::WriteDuplicates(n),
            Phase::PaddingIdle(n) => Action::WriteDuplicates(n),
            Phase::Flushing => Action::Flush,
            Phase::PollingShutdown => Action::FlushAndPoll,
            Phase::ReadingClock => Action::ReadClock,
            Phase::Pruning => Action::Prune,
            Phase::Finished => Action::Finish,
        }
    }

    /// The frame that a duplicate repeats.
    pub fn last_frame(&self) -> (data: &[u8])
        ensures
            data@ == self@.last,
    {
        &*self.last
    }

    /// The frame that `Action::WriteFrame` writes.
    pub fn pending_frame(&self) -> (data: &[u8])
        ensures
            data@ == self@.pending,
    {
        match &self.pending {
            Some(data) => &**data,
            None => &*self.last,
        }
    }

    /// Frames handed over so far, duplicates included.
    pub fn frame_count(&self) -> (count: u64)
        ensures
            count == self@.frame_count,
    {
        self.frame_count
    }

    /// Duplicates among the frames handed over.
    pub fn duplicated(&self) -> (count: u64)
        ensures
            count == self@.duplicated,
    {
        self.duplicated
    }

    fn frame_arrived(&mut self, chunk: FrameChunk)
        requires
            old(self)@.wf(),
        ensures
            final(self)@ == old(self)@.on_frame(chunk),
            final(self)@.wf(),
    {
        let missing: u64 = pad_frames(
            self.frame_count,
            due_slots(self.first, self.fps, chunk.timestamp),
        );
        self.pending = Some(chunk.data);
        self.phase = if missing > 0 {
            Phase::PaddingBeforeFrame(missing)
        } else {
            Phase::WritingFrame
        };
    }

    fn nothing_arrived(&mut self, now: Moment)
        requires
            old(self)@.wf(),
        ensures
            final(self)@ == old(self)@.on_idle(now),
            final(self)@.wf(),
    {
        let missing: u64 = pad_frames(self.frame_count, due_slots(self.first, self.fps, now));
        self.phase = if missing > 0 {
            Phase::PaddingIdle(missing)
        } else {
            Phase::PollingShutdown
        };
    }

    fn duplicates_written(&mut self, asked: u64, written: u64, then: Phase)
        requires
            old(self)@.wf(),
            written <= asked,
            old(self)@.frame_count + asked <= u64::MAX,
            then is WritingFrame || then is PollingShutdown,
        ensures
            final(self)@ == old(self)@.on_padded(asked, written, then),
            final(self)@.wf(),
    {
        self.frame_count = self.frame_count + written;
        if written == asked {
            self.duplicated = self.duplicated + asked;
            self.phase = then;
        } else {
            self.phase = Phase::Finished;
        }
    }

    fn frame_written(&mut self)
        requires
            old(self)@.wf(),
            old(self)@.frame_count < u64::MAX,
        ensures
            final(self)@ == old(self)@.on_written(),
            final(self)@.wf(),
    {
        self.frame_count = self.frame_count + 1;
        if let Some(data) = self.pending.take() {
            self.last = data;
        }
        self.phase = if self.frame_count % FLUSH_EVERY == 0 {
            Phase::Flushing
        } else {
            Phase::ReadingClock
        };
    }

    /// Takes note of what happened; `action` then says what is to be done.
    pub fn step(&mut self, event: Event)
        requires
            old(self)@.wf(),
            old(self)@.accepts(event),
        ensures
            final(self)@ == old(self)@.after(event),
            final(self)@.wf(),
    {
        match (self.phase, event) {
            (Phase::FirstFrame, Event::Wrote) => {
                self.frame_count = 1;
                self.phase = Phase::Receiving;
            },
            (Phase::Receiving, Event::Frame(chunk)) => self.frame_arrived(chunk),
            (Phase::Receiving, Event::Idle(now)) => self.nothing_arrived(now),
            (Phase::PaddingBeforeFrame(n), Event::Padded(w)) => self.duplicates_written(
                n,
                w,
                Phase::WritingFrame,
            ),
            (Phase::PaddingIdle(n), Event::Padded(w)) => self.duplicates_written(
                n,
                w,
                Phase::PollingShutdown,
            ),
            (Phase::WritingFrame, Event::Wrote) => self.frame_written(),
            (Phase::Flushing, Event::Flushed) => {
                self.phase = Phase::ReadingClock;
            },
            (Phase::PollingShutdown, Event::Polled(false)) => {
                self.phase = Phase::ReadingClock;
            },
            (Phase::ReadingClock, Event::Clock(now)) => {
                self.phase = if now.saturating_duration_since(self.last_cleanup)
                    >= NANOS_PER_SEC {
                    Phase::Pruning
                } else {
                    Phase::Receiving
                };
            },
            (Phase::Pruning, Event::Pruned(now)) => {
                self.last_cleanup = now;
                self.phase = Phase::Receiving;
            },
            _ => {
                self.phase = Phase::Finished;
            },
        }
    }
}

/// The state that a row of events leads to.
pub open spec fn state_after(start: EncoderModel, events: Seq<Event>) -> EncoderModel
    decreases events.len(),
{
    if events.len() == 0 {
        start
    } else {
        state_after(start, events.drop_last()).after(events.last())
    }
}

/// Every event of the row answers what the encoder waits for when it happens.
pub open spec fn is_run(start: EncoderModel, events: Seq<Event>) -> bool
    decreases events.len(),
{
    events.len() > 0 ==> {
        &&& is_run(start, events.drop_last())
        &&& state_after(start, events.drop_last()).accepts(events.last())
    }
}

/// The frames that reach the encoder's input when `event` happens in state `s`.
pub open spec fn frames_written_by(s: EncoderModel, event: Event) -> Seq<Seq<u8>> {
    match (s.phase, event) {
        (Phase::FirstFrame, Event::Wrote) | (Phase::WritingFrame, Event::Wrote) => seq![s.pending],
        (Phase::PaddingBeforeFrame(_), Event::Padded(w))
        | (Phase::PaddingIdle(_), Event::Padded(w)) => text::repeated(s.last, w as nat),
        _ => Seq::empty(),
    }
}

/// All frames that reach the encoder's input in the course of a row of events.
pub open spec fn frames_written(start: EncoderModel, events: Seq<Event>) -> Seq<Seq<u8>>
    decreases events.len(),
{
    if events.len() == 0 {
        Seq::empty()
    } else {
        frames_written(start, events.drop_last()) + frames_written_by(
            state_after(start, events.drop_last()),
            events.last(),
        )
    }
}

/// The state of an encoder that has just been given its first frame.
pub open spec fn is_start(s: EncoderModel) -> bool {
    s.phase is FirstFrame && s.frame_count == 0 && s.duplicated == 0 && s.pending == s.last
}

/// In every run the frame counter is the number of frames on the video timeline, and the
/// frame that duplicates repeat is the one that stands last on it.
pub proof fn lemma_timeline_accounts(start: EncoderModel, events: Seq<Event>)
    requires
        is_start(start),
        is_run(start, events),
    ensures
        state_after(start, events).wf(),
        frames_written(start, events).len() == state_after(start, events).frame_count,
        frames_written(start, events).len() > 0 ==> frames_written(start, events).last()
            == state_after(start, events).last,
        frames_written(start, events).len() == 0 <==> state_after(start, events).frame_count == 0,
        state_after(start, events).phase is FirstFrame ==> state_after(start, events) == start,
        state_after(start, events).frame_count == 0 ==> state_after(start, events).phase
            is FirstFrame || state_after(start, events).phase is Finished,
    decreases events.len(),
{
    if events.len() > 0 {
        lemma_timeline_accounts(start, events.drop_last());
        let before = state_after(start, events.drop_last());
        let more = frames_written_by(before, events.last());
        if more.len() > 0 {
            assert(frames_written(start, events).last() == more.last());
        } else {
            assert(frames_written(start, events) =~= frames_written(start, events.drop_last()));
        }
    }
}

/// A duplicate repeats the frame before it: whatever is written while a gap is filled
/// equals the frame that stood last on the timeline.
pub proof fn lemma_duplicates_repeat(start: EncoderModel, events: Seq<Event>, written: u64)
    requires
        is_start(start),
        is_run(start, events.push(Event::Padded(written))),
    ensures
        frames_written(start, events).len() > 0,
        frames_written(start, events.push(Event::Padded(written))) == frames_written(start, events)
            + text::repeated(frames_written(start, events).last(), written as nat),
{
    let all = events.push(Event::Padded(written));
    assert(all.drop_last() =~= events);
    lemma_timeline_accounts(start, events);
}

/// The frames that arrived in the course of a row of events, the first one included.
pub open spec fn frames_arrived(start: EncoderModel, events: Seq<Event>) -> Seq<Seq<u8>>
    decreases events.len(),
{
    if events.len() == 0 {
        seq![start.pending]
    } else {
        let before = frames_arrived(start, events.drop_last());
        match events.last() {
            Event::Frame(chunk) => before.push((*chunk.data)@),
            _ => before,
        }
    }
}

/// `frames` in their order, each as often as `copies` says.
pub open spec fn stretched(frames: Seq<Seq<u8>>, copies: Seq<nat>) -> Seq<Seq<u8>>
    decreases frames.len(),
{
    if frames.len() == 0 {
        Seq::empty()
    } else {
        stretched(frames.drop_last(), copies.drop_last()) + text::repeated(
            frames.last(),
            copies.last(),
        )
    }
}

/// `copies` gives every one of `frames` at least one copy.
pub open spec fn covers(frames: Seq<Seq<u8>>, copies: Seq<nat>) -> bool {
    copies.len() == frames.len() && forall|i: int|
        0 <= i < copies.len() ==> #[trigger] copies[i] >= 1
}

/// `timeline` consists of `frames` in their order, each at least once and followed only by
/// copies of itself.
pub open spec fn is_paced(timeline: Seq<Seq<u8>>, frames: Seq<Seq<u8>>) -> bool {
    exists|copies: Seq<nat>| #[trigger] covers(frames, copies) && timeline == stretched(frames, copies)
}

proof fn lemma_pacing_takes_a_frame(
    timeline: Seq<Seq<u8>>,
    frames: Seq<Seq<u8>>,
    frame: Seq<u8>,
)
    requires
        is_paced(timeline, frames),
    ensures
        is_paced(timeline + seq![frame], frames.push(frame)),
{
    let copies = choose|copies: Seq<nat>| #[trigger]
        covers(frames, copies) && timeline == stretched(frames, copies);
    let more = copies.push(1nat);
    assert(frames.push(frame).drop_last() =~= frames);
    assert(more.drop_last() =~= copies);
    assert(text::repeated(frame, 1) =~= seq![frame]);
    assert(covers(frames.push(frame), more));
}

proof fn lemma_pacing_takes_copies(timeline: Seq<Seq<u8>>, frames: Seq<Seq<u8>>, count: nat)
    requires
        is_paced(timeline, frames),
        frames.len() > 0,
    ensures
        is_paced(timeline + text::repeated(frames.last(), count), frames),
{
    let copies = choose|copies: Seq<nat>| #[trigger]
        covers(frames, copies) && timeline == stretched(frames, copies);
    let more = copies.drop_last().push(copies.last() + count);
    assert(more.drop_last() =~= copies.drop_last());
    assert(text::repeated(frames.last(), copies.last()) + text::repeated(frames.last(), count)
        =~= text::repeated(frames.last(), copies.last() + count));
    assert(timeline + text::repeated(frames.last(), count) =~= stretched(frames, more));
    assert(covers(frames, more)) by {
        assert forall|i: int| 0 <= i < more.len() implies #[trigger] more[i] >= 1 by {
            assert(copies[i] >= 1);
        }
    }
}

/// The frames that stand on the timeline in state `s`, of those that have arrived: all of them,
/// but for the one that has arrived and is not written yet.
pub open spec fn frames_placed(s: EncoderModel, arrived: Seq<Seq<u8>>) -> Seq<Seq<u8>> {
    match s.phase {
        Phase::FirstFrame | Phase::PaddingBeforeFrame(_) | Phase::WritingFrame => arrived.drop_last(),
        _ => arrived,
    }
}

/// Every frame that arrives is written, in the order of arrival, and is followed only by copies
/// of itself until the next one. While a frame is under way, this holds of those before it;
/// where the recording has ended, the last frame may be missing, because its write failed.
pub proof fn lemma_frames_are_written_in_order(start: EncoderModel, events: Seq<Event>)
    requires
        is_start(start),
        is_run(start, events),
    ensures
        ({
            let s = state_after(start, events);
            let arrived = frames_arrived(start, events);
            let timeline = frames_written(start, events);
            &&& arrived.len() > 0
            &&& !(s.phase is Finished) ==> is_paced(timeline, frames_placed(s, arrived))
            &&& s.phase is Receiving ==> is_paced(timeline, arrived)
            &&& s.phase is Finished ==> is_paced(timeline, arrived) || is_paced(
                timeline,
                arrived.drop_last(),
            )
            &&& frames_placed(s, arrived) != arrived ==> s.pending == arrived.last()
            &&& !(s.phase is Finished) && frames_placed(s, arrived).len() > 0 ==> s.last
                == frames_placed(s, arrived).last()
            &&& !(s.phase is FirstFrame || s.phase is Finished) ==> frames_placed(s, arrived).len()
                > 0
        }),
    decreases events.len(),
{
    let arrived = frames_arrived(start, events);
    let timeline = frames_written(start, events);
    if events.len() == 0 {
        assert(arrived.drop_last() =~= Seq::<Seq<u8>>::empty());
        assert(covers(Seq::empty(), Seq::empty()));
        assert(timeline =~= stretched(Seq::empty(), Seq::empty()));
    } else {
        lemma_frames_are_written_in_order(start, events.drop_last());
        let before = state_after(start, events.drop_last());
        let earlier = frames_written(start, events.drop_last());
        let arrived_before = frames_arrived(start, events.drop_last());
        let placed = frames_placed(before, arrived_before);
        match (before.phase, events.last()) {
            (Phase::FirstFrame, Event::Wrote) | (Phase::WritingFrame, Event::Wrote) => {
                lemma_pacing_takes_a_frame(earlier, placed, before.pending);
                assert(placed.push(before.pending) =~= arrived);
            },
            (Phase::PaddingBeforeFrame(_), Event::Padded(w))
            | (Phase::PaddingIdle(_), Event::Padded(w)) => {
                lemma_pacing_takes_copies(earlier, placed, w as nat);
            },
            (Phase::Receiving, Event::Frame(chunk)) => {
                assert(arrived.drop_last() =~= arrived_before);
                assert(timeline =~= earlier);
            },
            _ => {
                assert(timeline =~= earlier);
            },
        }
    }
}

/// Recording ends only once nothing is queued any more, or where a write has failed: the
/// shutdown signal is looked at only after a wait in which no frame arrived.
pub proof fn lemma_queue_is_drained(s: EncoderModel, event: Event)
    requires
        s.wf(),
        s.accepts(event),
    ensures
        s.after(event).phase is Finished ==> {
            ||| event is Disconnected
            ||| event == Event::Polled(true)
            ||| event is WriteFailed
            ||| event is Padded
        },
        event is Polled ==> s.phase is PollingShutdown,
        s.after(event).phase is PollingShutdown ==> event is Idle || s.phase is PaddingIdle,
        s.after(event).phase is PaddingIdle ==> event is Idle,
{
}

/// Where no frame arrives for a while that does not exceed the fill, the timeline is
/// brought up to the slot that the clock calls for.
pub proof fn lemma_idle_keeps_pace(s: EncoderModel, now: Moment)
    requires
        s.wf(),
        s.phase is Receiving,
        slot_at(s.first, s.fps, now) <= s.frame_count + MAX_FILL,
    ensures
        ({
            let due = slot_at(s.first, s.fps, now);
            match s.after(Event::Idle(now)).phase {
                Phase::PaddingIdle(n) => {
                    &&& s.frame_count < due
                    &&& s.after(Event::Idle(now)).after(Event::Padded(n)).frame_count == due
                },
                _ => {
                    &&& s.frame_count >= due
                    &&& s.after(Event::Idle(now)).frame_count == s.frame_count
                },
            }
        }),
{
}

/// A frame that arrives after a gap that does not exceed the fill lands in the slot of its
/// arrival time, or directly behind the timeline where that slot is taken.
pub proof fn lemma_frame_lands_in_its_slot(s: EncoderModel, chunk: FrameChunk)
    requires
        s.wf(),
        s.phase is Receiving,
        slot_at(s.first, s.fps, chunk.timestamp) <= s.frame_count + MAX_FILL,
    ensures
        ({
            let due = slot_at(s.first, s.fps, chunk.timestamp);
            let arrived = s.after(Event::Frame(chunk));
            match arrived.phase {
                Phase::PaddingBeforeFrame(n) => {
                    let padded = arrived.after(Event::Padded(n));
                    &&& s.frame_count < due
                    &&& padded.phase is WritingFrame
                    &&& padded.frame_count == due
                    &&& padded.pending == (*chunk.data)@
                },
                _ => {
                    &&& s.frame_count >= due
                    &&& arrived.phase is WritingFrame
                    &&& arrived.frame_count == s.frame_count
                    &&& arrived.pending == (*chunk.data)@
                },
            }
        }),
{
}

/// The time of the last look at the clock that moved the timeline: the arrival of a frame, or
/// a wait in which none arrived.
pub open spec fn last_seen(events: Seq<Event>) -> Option<Moment>
    decreases events.len(),
{
    if events.len() == 0 {
        None
    } else {
        match events.last() {
            Event::Frame(chunk) => Some(chunk.timestamp),
            Event::Idle(now) => Some(now),
            _ => last_seen(events.drop_last()),
        }
    }
}

/// No stall of the run exceeds the fill.
pub open spec fn stalls_are_short(start: EncoderModel, events: Seq<Event>) -> bool
    decreases events.len(),
{
    events.len() > 0 ==> {
        let before = state_after(start, events.drop_last());
        &&& stalls_are_short(start, events.drop_last())
        &&& match events.last() {
            Event::Frame(chunk) => slot_at(before.first, before.fps, chunk.timestamp)
                <= before.frame_count + MAX_FILL,
            Event::Idle(now) => slot_at(before.first, before.fps, now) <= before.frame_count
                + MAX_FILL,
            _ => true,
        }
    }
}

/// The video timeline is locked to the wall clock: in every run without a stall that exceeds
/// the fill, all slots due by the last look at the clock are filled or being filled, and
/// filling never goes beyond the slots that are due.
pub proof fn lemma_timeline_keeps_pace(start: EncoderModel, events: Seq<Event>)
    requires
        is_start(start),
        is_run(start, events),
        stalls_are_short(start, events),
    ensures
        ({
            let s = state_after(start, events);
            &&& s.wf()
            &&& s.first == start.first
            &&& s.fps == start.fps
            &&& last_seen(events) matches Some(t) ==> match s.phase {
                Phase::PaddingBeforeFrame(n) | Phase::PaddingIdle(n) => s.frame_count + n
                    == slot_at(s.first, s.fps, t),
                Phase::Finished => true,
                _ => s.frame_count >= slot_at(s.first, s.fps, t),
            }
        }),
    decreases events.len(),
{
    if events.len() > 0 {
        lemma_timeline_keeps_pace(start, events.drop_last());
    }
}

/// However long the stall, one event makes the encoder write at most `MAX_FILL` duplicates.
pub proof fn lemma_burst_is_bounded(s: EncoderModel, event: Event)
    requires
        s.wf(),
        s.accepts(event),
    ensures
        s.after(event).wf(),
        s.after(event).action() matches Action::WriteDuplicates(n) ==> n <= MAX_FILL,
{
}

/// A write that fails ends the recording, and nothing happens after the end.
pub proof fn lemma_failed_write_is_final(s: EncoderModel, event: Event)
    requires
        s.wf(),
        s.accepts(event),
        match (s.phase, event) {
            (_, Event::WriteFailed) => true,
            (Phase::PaddingBeforeFrame(n), Event::Padded(w))
            | (Phase::PaddingIdle(n), Event::Padded(w)) => w < n,
            _ => false,
        },
    ensures
        s.after(event).action() == Action::Finish,
        forall|next: Event| !#[trigger] s.after(event).accepts(next),
{
}

/// Slots are counted from the first frame on: none are due up to its time, and after it as many
/// as the time since then holds at `fps` slots a second, to the nearest one and but for five
/// parts in 2 to the 53rd.
pub proof fn lemma_slots_are_counted_from_the_first_frame(first: Moment, fps: u32, t: Moment)
    ensures
        t.nanos <= first.nanos ==> slot_at(first, fps, t) == 0,
        t.nanos >= first.nanos && (t.nanos - first.nanos) * fps < 0x4000_0000_0000_0000
            * 1_000_000_000 ==> {
            let exact = (t.nanos - first.nanos) * fps;
            let off = 2 * (slot_at(first, fps, t) * 1_000_000_000) - 2 * exact;
            let slack = 0x20_0000_0000_0000 * 1_000_000_000 + 10 * exact;
            -slack <= 0x20_0000_0000_0000 * off <= slack
        },
        t.nanos >= first.nanos && (t.nanos - first.nanos) * fps >= 0x2_0000_0000_0000_0000
            * 1_000_000_000 ==> slot_at(first, fps, t) == u64::MAX,
{
    if t.nanos <= first.nanos {
        assert(0int * fps == 0);
        double::lemma_whole_units_are_near(0, fps as nat);
        double::lemma_whole_seconds_are_exact(0, fps as nat);
    } else {
        let elapsed = (t.nanos - first.nanos) as nat;
        double::lemma_whole_units_are_near(elapsed, fps as nat);
        assert(elapsed * fps >= 0) by (nonlinear_arith)
            requires
                elapsed >= 0,
                fps >= 0,
        ;
    }
}

/// Filling a gap never goes beyond the slot that is due and never takes away: it closes a gap of
/// up to 600 slots completely, and of a longer one exactly 600.
pub proof fn lemma_fill_closes_the_gap(frame_count: u64, target_slot: nat)
    ensures
        target_slot <= frame_count ==> fill(frame_count, target_slot) == 0,
        frame_count <= target_slot <= frame_count + 600 ==> frame_count + fill(
            frame_count,
            target_slot,
        ) == target_slot,
        target_slot >= frame_count + 600 ==> fill(frame_count, target_slot) == 600,
{
}

/// What is done in answer to each event, as far as it does not depend on the clock.
///
/// A frame that arrives is the next one to be written, and once written it is what duplicates
/// repeat. Every write is counted, every duplicate once more; nothing else touches the counters.
/// Every thirtieth frame flushes. A failed write, the end of the channel and the shutdown signal
/// end the recording, and nothing else does.
pub proof fn lemma_answers_lead_on(s: EncoderModel, event: Event)
    requires
        s.wf(),
        s.accepts(event),
    ensures
        ({
            let next = s.after(event);
            let job = next.action();
            &&& next.first == s.first && next.fps == s.fps
            &&& match (s.action(), event) {
                (Action::Receive, Event::Frame(chunk)) => {
                    &&& job == Action::WriteFrame || job is WriteDuplicates
                    &&& next.pending == (*chunk.data)@
                    &&& next.last == s.last
                    &&& next.frame_count == s.frame_count && next.duplicated == s.duplicated
                },
                (Action::Receive, Event::Idle(_)) => {
                    &&& job == Action::FlushAndPoll || job is WriteDuplicates
                    &&& next.last == s.last
                    &&& next.frame_count == s.frame_count && next.duplicated == s.duplicated
                },
                (Action::Receive, _) => event is Disconnected && job == Action::Finish,
                (Action::WriteFrame, Event::Wrote) => {
                    &&& next.frame_count == s.frame_count + 1 && next.duplicated == s.duplicated
                    &&& s.frame_count == 0 || next.last == s.pending
                    &&& if s.phase is FirstFrame {
                        job == Action::Receive
                    } else if (s.frame_count + 1) % 30 == 0 {
                        job == Action::Flush
                    } else {
                        job == Action::ReadClock
                    }
                },
                (Action::WriteFrame, _) => {
                    &&& event is WriteFailed && job == Action::Finish
                    &&& next.frame_count == s.frame_count && next.duplicated == s.duplicated
                },
                (Action::WriteDuplicates(asked), Event::Padded(written)) => {
                    &&& written <= asked
                    &&& next.frame_count == s.frame_count + written
                    &&& next.last == s.last && next.pending == s.pending
                    &&& if written < asked {
                        job == Action::Finish && next.duplicated == s.duplicated
                    } else if s.phase is PaddingBeforeFrame {
                        job == Action::WriteFrame && next.duplicated == s.duplicated + asked
                    } else {
                        job == Action::FlushAndPoll && next.duplicated == s.duplicated + asked
                    }
                },
                (Action::Flush, Event::Flushed) => job == Action::ReadClock,
                (Action::FlushAndPoll, Event::Polled(shutdown)) => job == if shutdown {
                    Action::Finish
                } else {
                    Action::ReadClock
                },
                (Action::ReadClock, Event::Clock(_)) => job == Action::Prune || job
                    == Action::Receive,
                (Action::Prune, Event::Pruned(_)) => job == Action::Receive,
                _ => false,
            }
            &&& s.action() == Action::Flush || s.action() == Action::FlushAndPoll || s.action()
                == Action::ReadClock || s.action() == Action::Prune ==> next.last == s.last
                && next.frame_count == s.frame_count && next.duplicated == s.duplicated
        }),
{
}

/// Whatever can come of an action is accepted, so that the encoder is never stuck: only a
/// counter that is full keeps a written frame from being counted.
pub proof fn lemma_every_answer_is_accepted(s: EncoderModel, event: Event)
    requires
        s.wf(),
    ensures
        s.accepts(event) <==> match s.action() {
            Action::Receive => event is Frame || event is Idle || event is Disconnected,
            Action::WriteFrame => event is WriteFailed || (event is Wrote && s.frame_count
                < u64::MAX),
            Action::WriteDuplicates(asked) => event matches Event::Padded(written) && written
                <= asked,
            Action::Flush => event is Flushed,
            Action::FlushAndPoll => event is Polled,
            Action::ReadClock => event is Clock,
            Action::Prune => event is Pruned,
            Action::Finish => false,
        },
{
}

/// The moment reported by the latest cleanup of a row of events, or `begun` where there was none.
pub open spec fn latest_cleanup(begun: Moment, events: Seq<Event>) -> Moment
    decreases events.len(),
{
    if events.len() == 0 {
        begun
    } else {
        match events.last() {
            Event::Pruned(at) => at,
            _ => latest_cleanup(begun, events.drop_last()),
        }
    }
}

/// Stale segments are deleted once a second for as long as the recording runs: in every run,
/// whenever the clock is read, they are if and only if at least one second has passed since the
/// latest cleanup, or since the start where there was none.
pub proof fn lemma_cleanup_is_due_every_second(
    start: EncoderModel,
    events: Seq<Event>,
    now: Moment,
)
    requires
        is_start(start),
        is_run(start, events),
    ensures
        ({
            let s = state_after(start, events);
            let latest = latest_cleanup(start.last_cleanup, events);
            &&& s.last_cleanup == latest
            &&& s.action() == Action::ReadClock ==> s.after(Event::Clock(now)).action() == if now.nanos
                >= latest.nanos + 1_000_000_000 {
                Action::Prune
            } else {
                Action::Receive
            }
        }),
    decreases events.len(),
{
    if events.len() > 0 {
        lemma_cleanup_is_due_every_second(start, events.drop_last(), now);
    }
}

/// The counters add up: what is on the timeline are the frames that arrived and the duplicates.
pub proof fn lemma_counters_add_up(start: EncoderModel, events: Seq<Event>)
    requires
        is_start(start),
        is_run(start, events),
    ensures
        ({
            let s = state_after(start, events);
            let arrived = frames_arrived(start, events);
            &&& s.phase is Receiving ==> s.frame_count == s.duplicated + arrived.len()
            &&& !(s.phase is Finished) ==> s.frame_count == s.duplicated + frames_placed(
                s,
                arrived,
            ).len()
        }),
    decreases events.len(),
{
    if events.len() > 0 {
        lemma_counters_add_up(start, events.drop_last());
        lemma_frames_are_written_in_order(start, events.drop_last());
        lemma_timeline_accounts(start, events.drop_last());
        lemma_frames_are_written_in_order(start, events);
    }
}

/// The gap before a frame, or up to the present where none arrives, is filled up to the slot
/// that is due: with as many duplicates as are missing, and 600 where more are missing.
pub proof fn lemma_gaps_are_filled(s: EncoderModel, event: Event, due: nat)
    requires
        s.wf(),
        s.phase is Receiving,
        match event {
            Event::Frame(chunk) => due == slot_at(s.first, s.fps, chunk.timestamp),
            Event::Idle(now) => due == slot_at(s.first, s.fps, now),
            _ => false,
        },
    ensures
        ({
            let job = s.after(event).action();
            &&& due <= s.frame_count ==> job == if event is Frame {
                Action::WriteFrame
            } else {
                Action::FlushAndPoll
            }
            &&& s.frame_count < due <= s.frame_count + 600 ==> job == Action::WriteDuplicates(
                (due - s.frame_count) as u64,
            )
            &&& s.frame_count + 600 <= due ==> job == Action::WriteDuplicates(600)
        }),
{
}

/// The encoder looks at the shutdown signal at least every tenth of a second without a frame.
pub proof fn lemma_waits_are_short()
    ensures
        RECEIVE_TIMEOUT_MS * 10 == 1000,
{
}

} // verus!
