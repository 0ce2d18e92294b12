//! The end of the encoder: what happens to the segments once FFmpeg's input is closed.

use vstd::prelude::*;

use crate::backend::capture::ffmpeg;
use crate::backend::capture::ffmpeg::concat_outcome;
use crate::backend::capture::segments;
use crate::backend::capture::segments::{
    finalize_video, first_index, list_segments, video_start, VideoOutput,
};
use crate::util::clock::{Moment, NANOS_PER_SEC};
use crate::util::text;
use crate::util::text::push_text;

verus! {

/// What the finalizer is doing.
#[derive(Debug, Clone, Copy, PartialEq, Eq, Structural)]
pub enum Phase {
    /// FFmpeg is writing its last segment.
    AwaitingExit,
    /// Stale segments are being deleted once more.
    Pruning,
    /// The segments are being listed, for the index of the first one.
    FindingStart,
    /// The segments are being listed, to be joined.
    FindingSegments,
    /// The segments are being joined.
    Merging,
    /// The segments are being removed.
    RemovingSegments,
    Finished,
    /// FFmpeg could not be waited for.
    Failed,
}

/// What happened in the world.
pub enum Event {
    /// FFmpeg has ended.
    Exited,
    /// FFmpeg could not be waited for.
    ExitUnknown,
    /// The step is over; nothing depends on how it went.
    Done,
    /// The directory holds files of these names.
    Listed(Vec<String>),
    /// The directory could not be listed, for this reason.
    Unlisted(String),
    /// FFmpeg has joined the segments, or tried to: its success, its exit status, and what it
    /// wrote.
    Ran(bool, String, String),
    /// Joining could not even be tried, for this reason.
    NotRun(String),
}

/// What is to be done next.
#[derive(Debug, Clone, Copy, PartialEq, Eq, Structural)]
pub enum Action {
    AwaitExit,
    Prune,
    List,
    /// Join the segments in their order.
    Merge,
    RemoveSegments,
    Finish,
    /// Give up, with everything left as it is.
    Abort,
}

/// The state of the finalizer.
pub struct FinalizerModel {
    /// Wall-clock time of the first frame of the whole footage.
    pub first: Moment,
    pub segment_seconds: u32,
    pub phase: Phase,
    /// Wall-clock time at which the footage that is kept begins.
    pub start: Moment,
    /// Names of the segments that are joined, in their order.
    pub to_merge: Seq<Seq<char>>,
    /// How many segments were joined, or why none were.
    pub merged: Result<usize, Seq<char>>,
}

/// The wall-clock time at which the segment `index` begins.
pub open spec fn segment_start(first: Moment, index: u32, segment_seconds: u32) -> int {
    first.nanos + segments::dropped_nanos(index, segment_seconds)
}

impl FinalizerModel {
    pub open spec fn begin(first: Moment, segment_seconds: u32) -> FinalizerModel {
        FinalizerModel {
            first,
            segment_seconds,
            phase: Phase::AwaitingExit,
            start: first,
            to_merge: Seq::empty(),
            merged: Ok(0usize),
        }
    }

    pub open spec fn enter(self, phase: Phase) -> FinalizerModel {
        FinalizerModel { phase, ..self }
    }

    /// Joining has ended like this.
    pub open spec fn end_merge(self, merged: Result<usize, Seq<char>>) -> FinalizerModel {
        FinalizerModel { merged, ..self }.enter(Phase::RemovingSegments)
    }

    /// The clock can express where the footage begins if the directory holds `names`.
    pub open spec fn can_begin_with(self, names: Seq<String>) -> bool {
        segment_start(
            self.first,
            segments::first_index_of(segments::listing(names)),
            self.segment_seconds,
        ) <= u64::MAX
    }

    /// `event` answers what the phase waits for.
    pub open spec fn accepts(self, event: Event) -> bool {
        match self.phase {
            Phase::AwaitingExit => event is Exited || event is ExitUnknown,
            Phase::Pruning | Phase::RemovingSegments => event is Done,
            Phase::FindingStart => match event {
                Event::Listed(names) => self.can_begin_with(names@),
                _ => event is Unlisted,
            },
            Phase::FindingSegments => event is Listed || event is Unlisted,
            Phase::Merging => event is Ran || event is NotRun,
            Phase::Finished | Phase::Failed => false,
        }
    }

    /// What is to be done now.
    pub open spec fn next_action(self) -> Action {
        match self.phase {
            Phase::AwaitingExit => Action::AwaitExit,
            Phase::Pruning => Action::Prune,
            Phase::FindingStart | Phase::FindingSegments => Action::List,
            Phase::Merging => Action::Merge,
            Phase::RemovingSegments => Action::RemoveSegments,
            Phase::Finished => Action::Finish,
            Phase::Failed => Action::Abort,
        }
    }

    /// The state after `event`.
    pub open spec fn after(self, event: Event) -> FinalizerModel {
        match (self.phase, event) {
            (Phase::AwaitingExit, Event::Exited) => self.enter(Phase::Pruning),
            (Phase::AwaitingExit, _) => self.enter(Phase::Failed),
            (Phase::Pruning, _) => self.enter(Phase::FindingStart),
            (Phase::FindingStart, Event::Listed(names)) => FinalizerModel {
                start: Moment {
                    nanos: segment_start(
                        self.first,
                        segments::first_index_of(segments::listing(names@)),
                        self.segment_seconds,
                    ) as u64,
                },
                ..self
            }.enter(Phase::FindingSegments),
            (Phase::FindingStart, _) => FinalizerModel { start: self.first, ..self }.enter(
                Phase::FindingSegments,
            ),
            (Phase::FindingSegments, Event::Listed(names)) => {
                let found = segments::listing(names@);
                if found.len() == 0 {
                    self.end_merge(Ok(0usize))
                } else {
                    FinalizerModel { to_merge: segments::names_of(found), ..self }.enter(
                        Phase::Merging,
                    )
                }
            },
            (Phase::FindingSegments, Event::Unlisted(e)) => self.end_merge(Err(e@)),
            (Phase::Merging, Event::Ran(success, status, stderr)) => self.end_merge(
                if success {
                    Ok(self.to_merge.len() as usize)
                } else {
                    Err(ffmpeg::failure_text("concat"@, status@, stderr@))
                },
            ),
            (Phase::Merging, Event::NotRun(e)) => self.end_merge(Err(e@)),
            _ => self.enter(Phase::Finished),
        }
    }
}

/// The end of the encoder. It decides; the caller performs the actions and reports the events.
pub struct Finalizer {
    first: Moment,
    segment_seconds: u32,
    phase: Phase,
    start: Moment,
    to_merge: Vec<String>,
    merged: Result<usize, String>,
}

impl View for Finalizer {
    type V = FinalizerModel;

    closed spec fn view(&self) -> FinalizerModel {
        FinalizerModel {
            first: self.first,
            segment_seconds: self.segment_seconds,
            phase: self.phase,
            start: self.start,
            to_merge: text::texts(self.to_merge@),
            merged: match self.merged {
                Ok(n) => Ok(n),
                Err(e) => Err(e@),
            },
        }
    }
}

impl Finalizer {
    /// Begins when the input of FFmpeg has been closed. `first` is the time of the first frame.
    pub fn new(first: Moment, segment_seconds: u32) -> (finalizer: Finalizer)
        ensures
            finalizer@ == FinalizerModel::begin(first, segment_seconds),
    {
        let finalizer = Finalizer {
            first,
            segment_seconds,
            phase: Phase::AwaitingExit,
            start: first,
            to_merge: Vec::new(),
            merged: Ok(0),
        };
        assert(finalizer@.to_merge =~= Seq::<Seq<char>>::empty());
        finalizer
    }

    /// What is to be done now.
    pub fn action(&self) -> (action: Action)
        ensures
            action == self@.next_action(),
    {
        match self.phase {
            Phase::AwaitingExit => Action::AwaitExit,
            Phase::Pruning => Action::Prune,
            Phase::FindingStart | Phase::FindingSegments => Action::List,
            Phase::Merging => Action::Merge,
            Phase::RemovingSegments => Action::RemoveSegments,
            Phase::Finished => Action::Finish,
            Phase::Failed => Action::Abort,
        }
    }

    /// The names of the segments that `Action::Merge` joins, in their order.
    pub fn segments_to_merge(&self) -> (names: &Vec<String>)
        ensures
            text::texts(names@) == self@.to_merge,
    {
        &self.to_merge
    }

    /// How many segments were joined, or why none were.
    pub fn merged(&self) -> (merged: Result<usize, &str>)
        ensures
            match merged {
                Ok(n) => self@.merged == Ok::<usize, Seq<char>>(n),
                Err(e) => self@.merged == Err::<usize, Seq<char>>(e@),
            },
    {
        match &self.merged {
            Ok(n) => Ok(*n),
            Err(e) => Err(e.as_str()),
        }
    }

    /// Whether the clock can express where the footage begins if the directory holds `names`;
    /// of no concern but while that is being found.
    pub fn can_begin(&self, names: &Vec<String>) -> (can: bool)
        ensures
            can == (self@.phase is FindingStart ==> self@.can_begin_with(names@)),
    {
        match self.phase {
            Phase::FindingStart => {},
            _ => {
                return true;
            },
        }
        let found = list_segments(names);
        let index: u32 = first_index(&found);
        assert(index * self.segment_seconds <= u32::MAX * u32::MAX) by (nonlinear_arith)
            requires
                0 <= index <= u32::MAX,
                0 <= self.segment_seconds <= u32::MAX,
        ;
        let secs: u128 = index as u128 * self.segment_seconds as u128;
        self.first.nanos as u128 + secs * NANOS_PER_SEC as u128 <= u64::MAX as u128
    }

    fn segments_found(&mut self, names: &Vec<String>)
        requires
            old(self)@.phase is FindingSegments,
        ensures
            final(self)@ == ({
                let found = segments::listing(names@);
                if found.len() == 0 {
                    old(self)@.end_merge(Ok(0usize))
                } else {
                    FinalizerModel { to_merge: segments::names_of(found), ..old(self)@ }.enter(
                        Phase::Merging,
                    )
                }
            }),
    {
        let found = list_segments(names);
        if found.len() == 0 {
            self.merged = Ok(0);
            self.phase = Phase::RemovingSegments;
        } else {
            let mut ordered: Vec<String> = Vec::new();
            let mut i: usize = 0;
            assert(text::texts(ordered@) =~= segments::names_of(found@.take(0)));
            while i < found.len()
                invariant
                    i <= found.len(),
                    text::texts(ordered@) == segments::names_of(found@.take(i as int)),
                decreases found.len() - i,
            {
                push_text(&mut ordered, found[i].1.as_str());
                i += 1;
                assert(segments::names_of(found@.take(i as int)) =~= segments::names_of(
                    found@.take(i - 1),
                ).push(found@[i - 1].1@));
            }
            assert(found@.take(i as int) =~= found@);
            self.to_merge = ordered;
            self.phase = Phase::Merging;
        }
    }

    /// Takes note of what happened; `action` then says what is to be done.
    pub fn step(&mut self, event: Event)
        requires
            old(self)@.accepts(event),
        ensures
            final(self)@ == old(self)@.after(event),
    {
        match (self.phase, event) {
            (Phase::AwaitingExit, Event::Exited) => {
                self.phase = Phase::Pruning;
            },
            (Phase::AwaitingExit, _) => {
                self.phase = Phase::Failed;
            },
            (Phase::Pruning, _) => {
                self.phase = Phase::FindingStart;
            },
            (Phase::FindingStart, Event::Listed(names)) => {
                let found = list_segments(&names);
                self.start = video_start(self.first, first_index(&found), self.segment_seconds);
                self.phase = Phase::FindingSegments;
            },
            (Phase::FindingStart, _) => {
                self.start = self.first;
                self.phase = Phase::FindingSegments;
            },
            (Phase::FindingSegments, Event::Listed(names)) => self.segments_found(&names),
            (Phase::FindingSegments, Event::Unlisted(e)) => {
                self.merged = Err(e);
                self.phase = Phase::RemovingSegments;
            },
            (Phase::Merging, Event::Ran(success, status, stderr)) => {
                let count: usize = self.to_merge.len();
                self.merged = concat_outcome(count, success, status.as_str(), stderr.as_str());
                self.phase = Phase::RemovingSegments;
            },
            (Phase::Merging, Event::NotRun(e)) => {
                self.merged = Err(e);
                self.phase = Phase::RemovingSegments;
            },
            _ => {
                self.phase = Phase::Finished;
            },
        }
    }

    /// The video that was produced, if any, once all is done; `path` is where it was joined.
    pub fn output(self, path: String) -> (output: Option<VideoOutput>)
        requires
            self@.phase is Finished || self@.phase is Failed,
        ensures
            output is Some <==> (self@.merged matches Ok(n) && n > 0),
            output matches Some(video) ==> video.path == path && video.start == self@.start,
    {
        finalize_video(self.start, self.merged, path)
    }
}

/// The origin of the video is right: where the directory does not change between the two
/// looks at it, the footage that is joined begins at the moment that is told, and it is joined
/// in chronological order.
pub proof fn lemma_origin_is_that_of_the_footage(
    s: FinalizerModel,
    names: Vec<String>,
    status: String,
    stderr: String,
)
    requires
        s.phase is FindingStart,
        s.accepts(Event::Listed(names)),
        segments::listing(names@).len() > 0,
    ensures
        ({
            let found = segments::listing(names@);
            let listed = s.after(Event::Listed(names)).after(Event::Listed(names));
            let end = listed.after(Event::Ran(true, status, stderr)).after(Event::Done);
            &&& listed.phase is Merging
            &&& listed.to_merge == segments::names_of(found)
            &&& segments::is_listing(found, segments::segments_among(names@))
            &&& end.phase is Finished
            &&& end.merged matches Ok(n) && n == found.len()
            &&& end.start.nanos == segment_start(s.first, found[0].0, s.segment_seconds)
        }),
{
    segments::lemma_listing_exists(names@);
    assert(names@.len() == names.len());
}

/// The place of a phase in the order of events.
pub open spec fn rank(phase: Phase) -> nat {
    match phase {
        Phase::AwaitingExit => 0,
        Phase::Pruning => 1,
        Phase::FindingStart => 2,
        Phase::FindingSegments => 3,
        Phase::Merging => 4,
        Phase::RemovingSegments => 5,
        Phase::Finished => 6,
        Phase::Failed => 6,
    }
}

/// Finalizing comes to an end, and the segments are removed only once joining them is over:
/// nothing but FFmpeg's not being waited for keeps them from being removed.
pub proof fn lemma_finalizing_moves_forward(s: FinalizerModel, event: Event)
    requires
        s.accepts(event),
    ensures
        rank(s.phase) < rank(s.after(event).phase),
        s.after(event).phase is Finished ==> s.phase is RemovingSegments,
        s.after(event).phase is RemovingSegments ==> s.phase is Merging || s.phase
            is FindingSegments,
        s.after(event).phase is Failed ==> event is ExitUnknown,
{
}

/// What is done in answer to each event. Once FFmpeg has ended, stale segments are deleted, the
/// directory is listed for the origin and then for joining, what is found is joined in the order
/// of the listing, and the segments are removed, whatever came of joining them. The origin lies as
/// far behind the first frame as the segments before the first one last, or at it where the
/// directory cannot be listed; how many were joined, or why none were, is kept.
pub proof fn lemma_answers_lead_on(s: FinalizerModel, event: Event)
    requires
        s.accepts(event),
    ensures
        ({
            let next = s.after(event);
            let job = next.next_action();
            &&& next.first == s.first && next.segment_seconds == s.segment_seconds
            &&& match (s.next_action(), event) {
                (Action::AwaitExit, Event::Exited) => job == Action::Prune,
                (Action::AwaitExit, _) => event is ExitUnknown && job == Action::Abort,
                (Action::Prune, _) => event is Done && job == Action::List && next.phase
                    is FindingStart,
                (Action::List, Event::Listed(names)) => {
                    let found = segments::listing(names@);
                    if s.phase is FindingStart {
                        &&& job == Action::List && !(next.phase is FindingStart)
                        &&& found.len() > 0 ==> next.start.nanos == s.first.nanos + found[0].0
                            * s.segment_seconds * 1_000_000_000
                        &&& found.len() == 0 ==> next.start == s.first
                        &&& next.merged == s.merged
                    } else if found.len() > 0 {
                        &&& job == Action::Merge
                        &&& next.to_merge.len() == found.len()
                        &&& forall|i: int|
                            0 <= i < found.len() ==> #[trigger] next.to_merge[i] == found[i].1@
                    } else {
                        job == Action::RemoveSegments && (next.merged matches Ok(n) && n == 0)
                    }
                },
                (Action::List, Event::Unlisted(reason)) => if s.phase is FindingStart {
                    &&& job == Action::List && !(next.phase is FindingStart)
                    &&& next.start == s.first
                } else {
                    job == Action::RemoveSegments && (next.merged matches Err(e) && e == reason@)
                },
                (Action::Merge, Event::Ran(success, status, stderr)) => job
                    == Action::RemoveSegments && if success {
                    next.merged matches Ok(n) && (s.to_merge.len() <= usize::MAX ==> n
                        == s.to_merge.len())
                } else {
                    next.merged matches Err(e) && e == ffmpeg::failure_text(
                        "concat"@,
                        status@,
                        stderr@,
                    )
                },
                (Action::Merge, Event::NotRun(reason)) => job == Action::RemoveSegments && (
                next.merged matches Err(e) && e == reason@),
                (Action::RemoveSegments, _) => event is Done && job == Action::Finish
                    && next.merged == s.merged,
                _ => false,
            }
            &&& !(s.phase is FindingStart) ==> next.start == s.start
            &&& !(s.phase is FindingSegments || s.phase is Merging) ==> next.merged == s.merged
        }),
{
    if let Event::Listed(names) = event {
        let found = segments::listing(names@);
        if found.len() > 0 {
            assert(segments::dropped_nanos(found[0].0, s.segment_seconds) == found[0].0
                * s.segment_seconds * 1_000_000_000);
        } else {
            assert(0 * s.segment_seconds * 1_000_000_000 == 0);
        }
    }
}

/// Whatever can come of an action is accepted: only an origin beyond the end of the clock is not.
pub proof fn lemma_every_answer_is_accepted(s: FinalizerModel, event: Event)
    ensures
        s.accepts(event) <==> match s.next_action() {
            Action::AwaitExit => event is Exited || event is ExitUnknown,
            Action::Prune | Action::RemoveSegments => event is Done,
            Action::List => match event {
                Event::Listed(names) => {
                    let found = segments::listing(names@);
                    s.phase is FindingStart && found.len() > 0 ==> s.first.nanos + found[0].0
                        * s.segment_seconds * 1_000_000_000 <= u64::MAX
                },
                _ => event is Unlisted,
            },
            Action::Merge => event is Ran || event is NotRun,
            Action::Finish | Action::Abort => false,
        },
{
    if let Event::Listed(names) = event {
        let found = segments::listing(names@);
        if found.len() > 0 {
            assert(segments::dropped_nanos(found[0].0, s.segment_seconds) == found[0].0
                * s.segment_seconds * 1_000_000_000);
        } else {
            assert(0 * s.segment_seconds * 1_000_000_000 == 0);
        }
    }
}

/// Finalizing begins with waiting for FFmpeg, with nothing joined yet.
pub proof fn lemma_finalizing_begins_with_waiting(first: Moment, segment_seconds: u32)
    ensures
        ({
            let s = FinalizerModel::begin(first, segment_seconds);
            &&& s.next_action() == Action::AwaitExit
            &&& s.first == first && s.segment_seconds == segment_seconds
            &&& s.merged matches Ok(n) && n == 0
        }),
{
}

} // verus!
