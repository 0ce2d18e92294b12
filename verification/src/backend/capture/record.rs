//! The recorder's lifecycle: what it sets up and in which order, how it is wound down, and
//! how the final file comes into place.

use vstd::prelude::*;

use crate::backend::capture::encoder::FrameChunk;
use crate::backend::capture::ffmpeg::EncodePlan;
use crate::util::config::Config;

verus! {

/// Nanoseconds between two frames at `fps` frames per second.
pub fn frame_interval(fps: u32) -> (nanos: u64)
    requires
        fps > 0,
    ensures
        nanos == 1_000_000_000int / (fps as int),
{
    1_000_000_000 / fps as u64
}

/// Frames that the buffer between capture and encoder holds: two seconds of them, at least
/// sixty. It only absorbs short-term timing jitter, not the whole recording.
pub open spec fn buffer_frames(fps: u32) -> nat {
    if 2 * fps < 60 {
        60
    } else {
        (2 * fps) as nat
    }
}

/// What a recording is set up with.
pub struct RecordPlan {
    pub output_dir: String,
    pub window_title: String,
    /// Name of the finished file in the output directory.
    pub final_name: String,
    /// Name of the file that video and audio are merged into before it becomes the finished one.
    pub partial_name: String,
    pub fps: u32,
    /// Length of the footage that is kept, in seconds.
    pub duration: u32,
    /// Least time between two captured frames, in nanoseconds.
    pub frame_interval: u64,
    /// Capacity of the frame buffer.
    pub buffer_size: usize,
    /// Whether audio is recorded too.
    pub audio: bool,
}

impl RecordPlan {
    /// The files that come into being have these names, whatever is recorded.
    pub open spec fn has_names(&self) -> bool {
        self.final_name@ == "recording.mp4"@ && self.partial_name@ == "recording.muxing.mp4"@
    }

    /// The plan is that of this configuration.
    pub open spec fn follows(&self, config: Config) -> bool {
        &&& self.output_dir == config.capture.output_dir
        &&& self.window_title == config.general.capture_target_window_title
        &&& self.fps == config.capture.fps
        &&& self.duration == config.capture.duration
        &&& self.frame_interval == 1_000_000_000int / (config.capture.fps as int)
        &&& self.buffer_size == buffer_frames(config.capture.fps)
        &&& self.audio == config.capture.audio
        &&& self.has_names()
    }

    /// The plan that a configuration asks for.
    pub fn new(config: &Config) -> (plan: RecordPlan)
        requires
            config.capture.fps > 0,
            2 * config.capture.fps <= usize::MAX,
        ensures
            plan.follows(*config),
            plan.output_dir == config.capture.output_dir,
            plan.window_title == config.general.capture_target_window_title,
            plan.has_names(),
            plan.fps == config.capture.fps,
            plan.duration == config.capture.duration,
            plan.frame_interval == 1_000_000_000int / (config.capture.fps as int),
            plan.buffer_size == buffer_frames(config.capture.fps),
            plan.audio == config.capture.audio,
    {
        let fps: u32 = config.capture.fps;
        let two_seconds: usize = fps as usize * 2;
        RecordPlan {
            output_dir: config.capture.output_dir.clone(),
            window_title: config.general.capture_target_window_title.clone(),
            final_name: "recording.mp4".to_owned(),
            partial_name: "recording.muxing.mp4".to_owned(),
            fps,
            duration: config.capture.duration,
            frame_interval: frame_interval(fps),
            buffer_size: if two_seconds < 60 {
                60
            } else {
                two_seconds
            },
            audio: config.capture.audio,
        }
    }
}

/// How the hand-over of a captured frame to the buffer went.
#[derive(Debug, Clone, Copy, PartialEq, Eq, Structural)]
pub enum Handover {
    /// The buffer took the frame.
    Taken,
    /// The buffer was full; the frame is dropped.
    Full,
    /// Nobody reads the buffer any more.
    Disconnected,
}

/// The capture side of the frame buffer has lost its reader.
#[derive(Debug, Clone, Copy, PartialEq, Eq, Structural)]
pub struct ReaderGone;

/// The capture side of the recorder.
pub struct CaptureHandler;

impl CaptureHandler {
    /// A full buffer costs the frame but not the capture; a buffer without a reader ends it.
    pub fn on_frame_arrived(&self, handover: Handover) -> (result: Result<(), ReaderGone>)
        ensures
            result is Err <==> handover is Disconnected,
    {
        match handover {
            Handover::Taken => Ok(()),
            Handover::Full => Ok(()),
            Handover::Disconnected => Err(ReaderGone),
        }
    }
}

/// What the encoder left behind.
#[derive(Debug, Clone, Copy, PartialEq, Eq, Structural)]
pub enum Footage {
    /// No video was produced.
    Missing,
    /// The video already is the final file.
    InPlace,
    /// The video is a file of its own.
    Apart,
}

/// How the final file came about.
#[derive(Debug, Clone, Copy, PartialEq, Eq, Structural)]
pub enum Finalized {
    /// Nothing has been finalized.
    Nothing,
    /// The final file holds video and audio.
    Muxed,
    /// The final file holds the video alone.
    VideoOnly,
    /// The video could not be moved into place and stays where it was.
    LeftApart,
}

/// What the recorder is doing.
#[derive(Debug, Clone, Copy, PartialEq, Eq, Structural)]
pub enum Phase {
    CreatingOutputDir,
    DetectingWindow,
    ResolvingPid,
    /// Audio is being started, for this process or for the whole system.
    StartingAudio(Option<u32>),
    SpawningEncoder,
    StartingCapture,
    Running,
    StoppingCapture,
    SignallingShutdown,
    JoiningEncoder,
    StoppingAudio(Footage),
    /// The audio is being written down, aligned to the video.
    WritingWav(Footage),
    Muxing(Footage),
    /// The audio file is being removed, after a merge that went well or not.
    RemovingWav(Footage, bool),
    /// What a failed merge left behind is being removed.
    RemovingPartial(Footage),
    /// A former final file is being removed, before the merged file takes its place.
    ClearingForMuxed(Footage),
    RenamingMuxed(Footage),
    RemovingVideo,
    /// A former final file is being removed, before the video takes its place.
    ClearingForVideo,
    RenamingVideo,
    /// The recorder has ended.
    Ended,
}

/// What happened in the world.
pub enum Event {
    /// The step is over; nothing depends on how it went.
    Done,
    /// The step went well.
    Succeeded,
    /// The step failed, for this reason.
    Failed(String),
    /// The process of the window, where it could be resolved.
    Pid(Option<u32>),
    /// The encoder has ended and left this.
    Encoded(Footage),
    /// The encoder has panicked.
    Panicked,
    /// The program that the step needs could not be run at all.
    Unlaunched,
    /// Audio capture has ended; whether it left a track.
    Track(bool),
}

/// The state of a recorder.
pub struct RecorderModel {
    pub wants_audio: bool,
    pub has_audio: bool,
    pub phase: Phase,
    pub finalized: Finalized,
    /// Why the recorder failed to start or stop.
    pub failure: Option<Seq<char>>,
}

/// Where the video goes without audio.
pub open spec fn promotion(footage: Footage) -> (Phase, Finalized) {
    match footage {
        Footage::Apart => (Phase::ClearingForVideo, Finalized::Nothing),
        Footage::InPlace => (Phase::Ended, Finalized::VideoOnly),
        Footage::Missing => (Phase::Ended, Finalized::Nothing),
    }
}

impl RecorderModel {
    pub open spec fn start(wants_audio: bool) -> RecorderModel {
        RecorderModel {
            wants_audio,
            has_audio: false,
            phase: Phase::CreatingOutputDir,
            finalized: Finalized::Nothing,
            failure: None,
        }
    }

    pub open spec fn enter(self, phase: Phase) -> RecorderModel {
        RecorderModel { phase, ..self }
    }

    pub open spec fn fail(self, failure: Seq<char>) -> RecorderModel {
        RecorderModel { failure: Some(failure), phase: Phase::Ended, ..self }
    }

    /// Moves the video into place without audio.
    pub open spec fn promote(self, footage: Footage) -> RecorderModel {
        let (phase, finalized) = promotion(footage);
        RecorderModel { phase, finalized, ..self }
    }

    /// Ends with the final file in this state.
    pub open spec fn end(self, finalized: Finalized) -> RecorderModel {
        RecorderModel { finalized, phase: Phase::Ended, ..self }
    }

    /// `event` answers what the phase waits for.
    pub open spec fn accepts(self, event: Event) -> bool {
        match self.phase {
            Phase::CreatingOutputDir
            | Phase::SpawningEncoder
            | Phase::SignallingShutdown
            | Phase::RemovingWav(_, _)
            | Phase::RemovingPartial(_)
            | Phase::ClearingForMuxed(_)
            | Phase::RemovingVideo
            | Phase::ClearingForVideo => event is Done,
            Phase::DetectingWindow
            | Phase::StartingAudio(_)
            | Phase::StartingCapture
            | Phase::StoppingCapture
            | Phase::WritingWav(_)
            | Phase::RenamingMuxed(_)
            | Phase::RenamingVideo => event is Succeeded || event is Failed,
            Phase::Muxing(_) => event is Succeeded || event is Failed || event is Unlaunched,
            Phase::ResolvingPid => event is Pid,
            Phase::JoiningEncoder => event is Encoded || event is Panicked,
            Phase::StoppingAudio(_) => event is Track,
            Phase::Running | Phase::Ended => false,
        }
    }

    /// The state after `event`.
    pub open spec fn after(self, event: Event) -> RecorderModel {
        match (self.phase, event) {
            (Phase::CreatingOutputDir, _) => self.enter(Phase::DetectingWindow),
            (Phase::DetectingWindow, Event::Failed(e)) => self.fail(
                "Failed to detect window: "@ + e@,
            ),
            (Phase::DetectingWindow, _) => self.enter(Phase::ResolvingPid),
            (Phase::ResolvingPid, Event::Pid(pid)) => self.enter(
                if self.wants_audio {
                    Phase::StartingAudio(pid)
                } else {
                    Phase::SpawningEncoder
                },
            ),
            (Phase::StartingAudio(_), _) => RecorderModel {
                has_audio: event is Succeeded,
                ..self
            }.enter(Phase::SpawningEncoder),
            (Phase::SpawningEncoder, _) => self.enter(Phase::StartingCapture),
            (Phase::StartingCapture, Event::Failed(e)) => self.fail(
                "Failed to start capture: "@ + e@,
            ),
            (Phase::StartingCapture, _) => self.enter(Phase::Running),
            (Phase::StoppingCapture, Event::Failed(e)) => self.fail(
                "Failed to stop capture: "@ + e@,
            ),
            (Phase::StoppingCapture, _) => self.enter(Phase::SignallingShutdown),
            (Phase::SignallingShutdown, _) => self.enter(Phase::JoiningEncoder),
            (Phase::JoiningEncoder, Event::Encoded(footage)) => self.enter(
                Phase::StoppingAudio(footage),
            ),
            (Phase::JoiningEncoder, _) => self.fail("Encoder thread panicked"@),
            (Phase::StoppingAudio(footage), Event::Track(track)) => if footage is Missing || !track {
                self.promote(footage)
            } else {
                self.enter(Phase::WritingWav(footage))
            },
            (Phase::WritingWav(footage), Event::Succeeded) => self.enter(Phase::Muxing(footage)),
            (Phase::WritingWav(footage), _) => self.promote(footage),
            (Phase::Muxing(footage), Event::Unlaunched) => self.promote(footage),
            (Phase::Muxing(footage), _) => self.enter(
                Phase::RemovingWav(footage, event is Succeeded),
            ),
            (Phase::RemovingWav(footage, merged), _) => self.enter(
                if merged {
                    Phase::ClearingForMuxed(footage)
                } else {
                    Phase::RemovingPartial(footage)
                },
            ),
            (Phase::RemovingPartial(footage), _) => self.promote(footage),
            (Phase::ClearingForMuxed(footage), _) => self.enter(Phase::RenamingMuxed(footage)),
            (Phase::RenamingMuxed(footage), Event::Failed(_)) => self.promote(footage),
            (Phase::RenamingMuxed(_), _) => self.enter(Phase::RemovingVideo),
            (Phase::RemovingVideo, _) => self.end(Finalized::Muxed),
            (Phase::ClearingForVideo, _) => self.enter(Phase::RenamingVideo),
            (Phase::RenamingVideo, Event::Failed(_)) => self.end(Finalized::LeftApart),
            (Phase::RenamingVideo, _) => self.end(Finalized::VideoOnly),
            _ => self,
        }
    }
}

/// What is to be done next.
#[derive(Debug, Clone, Copy, PartialEq, Eq, Structural)]
pub enum Action {
    CreateOutputDir,
    DetectWindow,
    ResolvePid,
    /// Start audio capture for this process, or for the whole system.
    StartAudio(Option<u32>),
    SpawnEncoder,
    StartCapture,
    /// Record until told to stop.
    Run,
    StopCapture,
    SignalShutdown,
    JoinEncoder,
    StopAudio,
    WriteWav,
    RunMux,
    RemoveWav,
    RemovePartial,
    RemoveFinal,
    /// Rename the merged file to the final one.
    RenameMuxed,
    RemoveVideo,
    /// Rename the video to the final file.
    RenameVideo,
    /// Nothing is left to do.
    End,
}

/// The action that a phase asks for.
pub open spec fn action_of(phase: Phase) -> Action {
    match phase {
        Phase::CreatingOutputDir => Action::CreateOutputDir,
        Phase::DetectingWindow => Action::DetectWindow,
        Phase::ResolvingPid => Action::ResolvePid,
        Phase::StartingAudio(pid) => Action::StartAudio(pid),
        Phase::SpawningEncoder => Action::SpawnEncoder,
        Phase::StartingCapture => Action::StartCapture,
        Phase::Running => Action::Run,
        Phase::StoppingCapture => Action::StopCapture,
        Phase::SignallingShutdown => Action::SignalShutdown,
        Phase::JoiningEncoder => Action::JoinEncoder,
        Phase::StoppingAudio(_) => Action::StopAudio,
        Phase::WritingWav(_) => Action::WriteWav,
        Phase::Muxing(_) => Action::RunMux,
        Phase::RemovingWav(_, _) => Action::RemoveWav,
        Phase::RemovingPartial(_) => Action::RemovePartial,
        Phase::ClearingForMuxed(_) => Action::RemoveFinal,
        Phase::RenamingMuxed(_) => Action::RenameMuxed,
        Phase::RemovingVideo => Action::RemoveVideo,
        Phase::ClearingForVideo => Action::RemoveFinal,
        Phase::RenamingVideo => Action::RenameVideo,
        Phase::Ended => Action::End,
    }
}

fn with_reason(what: &str, reason: &String) -> (message: String)
    ensures
        message@ == what@ + reason@,
{
    let mut message = what.to_owned();
    message.append(reason.as_str());
    message
}

/// A recorder. It decides; the caller performs the actions and reports the events.
pub struct Recorder {
    wants_audio: bool,
    has_audio: bool,
    phase: Phase,
    finalized: Finalized,
    failure: Option<String>,
}

impl View for Recorder {
    type V = RecorderModel;

    closed spec fn view(&self) -> RecorderModel {
        RecorderModel {
            wants_audio: self.wants_audio,
            has_audio: self.has_audio,
            phase: self.phase,
            finalized: self.finalized,
            failure: match self.failure {
                Some(text) => Some(text@),
                None => None,
            },
        }
    }
}

impl Recorder {
    /// Begins to start a recording.
    pub fn start(plan: &RecordPlan) -> (recorder: Recorder)
        ensures
            recorder@ == RecorderModel::start(plan.audio),
    {
        Recorder {
            wants_audio: plan.audio,
            has_audio: false,
            phase: Phase::CreatingOutputDir,
            finalized: Finalized::Nothing,
            failure: None,
        }
    }

    /// Begins to stop a recording: the producer first, so that no new frames are queued.
    pub fn stop(&mut self)
        requires
            old(self)@.phase is Running,
        ensures
            final(self)@ == old(self)@.enter(Phase::StoppingCapture),
    {
        self.phase = Phase::StoppingCapture;
    }

    /// What is to be done now.
    pub fn action(&self) -> (action: Action)
        ensures
            action == action_of(self@.phase),
    {
        match self.phase {
            Phase::CreatingOutputDir => Action::CreateOutputDir,
            Phase::DetectingWindow => Action::DetectWindow,
            Phase::ResolvingPid => Action::ResolvePid,
            Phase::StartingAudio(pid) => Action::StartAudio(pid),
            Phase::SpawningEncoder => Action::SpawnEncoder,
            Phase::StartingCapture => Action::StartCapture,
            Phase::Running => Action::Run,
            Phase::StoppingCapture => Action::StopCapture,
            Phase::SignallingShutdown => Action::SignalShutdown,
            Phase::JoiningEncoder => Action::JoinEncoder,
            Phase::StoppingAudio(_) => Action::StopAudio,
            Phase::WritingWav(_) => Action::WriteWav,
            Phase::Muxing(_) => Action::RunMux,
            Phase::RemovingWav(_, _) => Action::RemoveWav,
            Phase::RemovingPartial(_) => Action::RemovePartial,
            Phase::ClearingForMuxed(_) => Action::RemoveFinal,
            Phase::RenamingMuxed(_) => Action::RenameMuxed,
            Phase::RemovingVideo => Action::RemoveVideo,
            Phase::ClearingForVideo => Action::RemoveFinal,
            Phase::RenamingVideo => Action::RenameVideo,
            Phase::Ended => Action::End,
        }
    }

    /// How the final file came about.
    pub fn finalized(&self) -> (finalized: Finalized)
        ensures
            finalized == self@.finalized,
    {
        self.finalized
    }

    /// Whether audio is being captured.
    pub fn has_audio(&self) -> (has_audio: bool)
        ensures
            has_audio == self@.has_audio,
    {
        self.has_audio
    }

    /// The outcome of starting or stopping, once that has ended: an error says why.
    pub fn outcome(&self) -> (outcome: Result<(), String>)
        ensures
            outcome is Ok <==> self@.failure is None,
            outcome matches Err(e) ==> self@.failure == Some(e@),
    {
        match &self.failure {
            Some(text) => Err(text.clone()),
            None => Ok(()),
        }
    }

    fn fail(&mut self, message: String)
        ensures
            final(self)@ == old(self)@.fail(message@),
    {
        self.failure = Some(message);
        self.phase = Phase::Ended;
    }

    /// Moves the video into place when there is no audio to merge.
    fn promote_video_only(&mut self, footage: Footage)
        ensures
            final(self)@ == old(self)@.promote(footage),
    {
        match footage {
            Footage::Apart => {
                self.phase = Phase::ClearingForVideo;
                self.finalized = Finalized::Nothing;
            },
            Footage::InPlace => {
                self.phase = Phase::Ended;
                self.finalized = Finalized::VideoOnly;
            },
            Footage::Missing => {
                self.phase = Phase::Ended;
                self.finalized = Finalized::Nothing;
            },
        }
    }

    fn step_start(&mut self, event: Event)
        requires
            old(self)@.accepts(event),
            old(self)@.phase is CreatingOutputDir || old(self)@.phase is DetectingWindow || old(
                self,
            )@.phase is ResolvingPid || old(self)@.phase is StartingAudio || old(self)@.phase
                is SpawningEncoder || old(self)@.phase is StartingCapture,
        ensures
            final(self)@ == old(self)@.after(event),
    {
        match (self.phase, event) {
            (Phase::CreatingOutputDir, _) => {
                self.phase = Phase::DetectingWindow;
            },
            (Phase::DetectingWindow, Event::Failed(e)) => {
                let message = with_reason("Failed to detect window: ", &e);
                self.fail(message);
            },
            (Phase::DetectingWindow, _) => {
                self.phase = Phase::ResolvingPid;
            },
            (Phase::ResolvingPid, Event::Pid(pid)) => {
                self.phase = if self.wants_audio {
                    Phase::StartingAudio(pid)
                } else {
                    Phase::SpawningEncoder
                };
            },
            (Phase::StartingAudio(_), Event::Succeeded) => {
                self.has_audio = true;
                self.phase = Phase::SpawningEncoder;
            },
            (Phase::StartingAudio(_), _) => {
                self.has_audio = false;
                self.phase = Phase::SpawningEncoder;
            },
            (Phase::SpawningEncoder, _) => {
                self.phase = Phase::StartingCapture;
            },
            (Phase::StartingCapture, Event::Failed(e)) => {
                let message = with_reason("Failed to start capture: ", &e);
                self.fail(message);
            },
            (Phase::StartingCapture, _) => {
                self.phase = Phase::Running;
            },
            _ => {},
        }
    }

    fn step_stop(&mut self, event: Event)
        requires
            old(self)@.accepts(event),
            old(self)@.phase is StoppingCapture || old(self)@.phase is SignallingShutdown || old(
                self,
            )@.phase is JoiningEncoder || old(self)@.phase is StoppingAudio,
        ensures
            final(self)@ == old(self)@.after(event),
    {
        match (self.phase, event) {
            (Phase::StoppingCapture, Event::Failed(e)) => {
                let message = with_reason("Failed to stop capture: ", &e);
                self.fail(message);
            },
            (Phase::StoppingCapture, _) => {
                self.phase = Phase::SignallingShutdown;
            },
            (Phase::SignallingShutdown, _) => {
                self.phase = Phase::JoiningEncoder;
            },
            (Phase::JoiningEncoder, Event::Encoded(footage)) => {
                self.phase = Phase::StoppingAudio(footage);
            },
            (Phase::JoiningEncoder, _) => {
                self.fail("Encoder thread panicked".to_owned());
            },
            (Phase::StoppingAudio(footage), Event::Track(track)) => {
                match footage {
                    Footage::Missing => self.promote_video_only(footage),
                    _ => if track {
                        self.phase = Phase::WritingWav(footage);
                    } else {
                        self.promote_video_only(footage)
                    },
                }
            },
            _ => {},
        }
    }

    /// Merges the captured audio into the video and puts the result in place of the final
    /// file; where that fails the video goes there alone.
    fn mux_audio(&mut self, event: Event)
        requires
            old(self)@.accepts(event),
            old(self)@.phase is WritingWav || old(self)@.phase is Muxing || old(self)@.phase
                is RemovingWav || old(self)@.phase is RemovingPartial || old(self)@.phase
                is ClearingForMuxed || old(self)@.phase is RenamingMuxed || old(self)@.phase
                is RemovingVideo,
        ensures
            final(self)@ == old(self)@.after(event),
    {
        match (self.phase, event) {
            (Phase::WritingWav(footage), Event::Succeeded) => {
                self.phase = Phase::Muxing(footage);
            },
            (Phase::WritingWav(footage), _) => self.promote_video_only(footage),
            (Phase::Muxing(footage), Event::Unlaunched) => self.promote_video_only(footage),
            (Phase::Muxing(footage), Event::Succeeded) => {
                self.phase = Phase::RemovingWav(footage, true);
            },
            (Phase::Muxing(footage), _) => {
                self.phase = Phase::RemovingWav(footage, false);
            },
            (Phase::RemovingWav(footage, merged), _) => {
                self.phase = if merged {
                    Phase::ClearingForMuxed(footage)
                } else {
                    Phase::RemovingPartial(footage)
                };
            },
            (Phase::RemovingPartial(footage), _) => self.promote_video_only(footage),
            (Phase::ClearingForMuxed(footage), _) => {
                self.phase = Phase::RenamingMuxed(footage);
            },
            (Phase::RenamingMuxed(footage), Event::Failed(_)) => self.promote_video_only(footage),
            (Phase::RenamingMuxed(_), _) => {
                self.phase = Phase::RemovingVideo;
            },
            (Phase::RemovingVideo, _) => {
                self.finalized = Finalized::Muxed;
                self.phase = Phase::Ended;
            },
            _ => {},
        }
    }

    /// Takes note of what happened; `action` then says what is to be done.
    pub fn step(&mut self, event: Event)
        requires
            old(self)@.accepts(event),
        ensures
            final(self)@ == old(self)@.after(event),
    {
        match self.phase {
            Phase::CreatingOutputDir
            | Phase::DetectingWindow
            | Phase::ResolvingPid
            | Phase::StartingAudio(_)
            | Phase::SpawningEncoder
            | Phase::StartingCapture => self.step_start(event),
            Phase::StoppingCapture
            | Phase::SignallingShutdown
            | Phase::JoiningEncoder
            | Phase::StoppingAudio(_) => self.step_stop(event),
            Phase::ClearingForVideo => {
                self.phase = Phase::RenamingVideo;
            },
            Phase::RenamingVideo => {
                self.finalized = match event {
                    Event::Failed(_) => Finalized::LeftApart,
                    _ => Finalized::VideoOnly,
                };
                self.phase = Phase::Ended;
            },
            Phase::Running | Phase::Ended => {},
            _ => self.mux_audio(event),
        }
    }
}

/// The place of a phase in the lifecycle.
pub open spec fn rank(phase: Phase) -> nat {
    match phase {
        Phase::CreatingOutputDir => 0,
        Phase::DetectingWindow => 1,
        Phase::ResolvingPid => 2,
        Phase::StartingAudio(_) => 3,
        Phase::SpawningEncoder => 4,
        Phase::StartingCapture => 5,
        Phase::Running => 6,
        Phase::StoppingCapture => 7,
        Phase::SignallingShutdown => 8,
        Phase::JoiningEncoder => 9,
        Phase::StoppingAudio(_) => 10,
        Phase::WritingWav(_) => 11,
        Phase::Muxing(_) => 12,
        Phase::RemovingWav(_, _) => 13,
        Phase::RemovingPartial(_) => 14,
        Phase::ClearingForMuxed(_) => 14,
        Phase::RenamingMuxed(_) => 15,
        Phase::RemovingVideo => 16,
        Phase::ClearingForVideo => 17,
        Phase::RenamingVideo => 18,
        Phase::Ended => 19,
    }
}

/// The lifecycle only moves forward. So audio starts before the capture does, the capture
/// stops before the encoder is waited for, the audio stops after the video is finalized, and
/// every start and every stop comes to an end.
pub proof fn lemma_lifecycle_moves_forward(s: RecorderModel, event: Event)
    requires
        s.accepts(event),
    ensures
        rank(s.phase) < rank(s.after(event).phase),
        s.wants_audio && s.after(event).phase is SpawningEncoder ==> s.phase is StartingAudio,
        s.after(event).phase is StartingCapture ==> s.phase is SpawningEncoder,
        s.after(event).phase is Running ==> s.phase is StartingCapture,
        s.after(event).phase is JoiningEncoder ==> s.phase is SignallingShutdown,
        s.after(event).phase is StoppingAudio ==> s.phase is JoiningEncoder,
{
}

/// Audio that cannot be started, or a process that cannot be resolved, costs the audio but
/// not the recording.
pub proof fn lemma_audio_is_optional(s: RecorderModel, event: Event)
    requires
        s.accepts(event),
        s.phase is StartingAudio || s.phase is ResolvingPid,
    ensures
        s.after(event).failure == s.failure,
        !(s.after(event).phase is Ended),
{
}

/// The video file is removed only once the merged file has taken the final place, and a
/// former final file only directly before another file is moved there.
pub proof fn lemma_nothing_is_removed_early(s: RecorderModel, event: Event)
    requires
        s.accepts(event),
    ensures
        action_of(s.after(event).phase) == Action::RemoveVideo ==> action_of(s.phase)
            == Action::RenameMuxed && event is Succeeded,
        action_of(s.phase) == Action::RemoveFinal ==> action_of(s.after(event).phase)
            == Action::RenameMuxed || action_of(s.after(event).phase) == Action::RenameVideo,
{
}

/// The state that a row of events leads to.
pub open spec fn state_after(start: RecorderModel, events: Seq<Event>) -> RecorderModel
    decreases events.len(),
{
    if events.len() == 0 {
        start
    } else {
        state_after(start, events.drop_last()).after(events.last())
    }
}

/// Every event of the row answers what the recorder waits for when it happens.
pub open spec fn is_run(start: RecorderModel, events: Seq<Event>) -> bool
    decreases events.len(),
{
    events.len() > 0 ==> {
        &&& is_run(start, events.drop_last())
        &&& state_after(start, events.drop_last()).accepts(events.last())
    }
}

/// What the encoder left behind, as far as a row of events tells.
pub open spec fn footage_in(events: Seq<Event>) -> Option<Footage>
    decreases events.len(),
{
    if events.len() == 0 {
        None
    } else {
        match events.last() {
            Event::Encoded(footage) => Some(footage),
            _ => footage_in(events.drop_last()),
        }
    }
}

/// The footage that a phase is about.
pub open spec fn footage_at(phase: Phase) -> Option<Footage> {
    match phase {
        Phase::StoppingAudio(f)
        | Phase::WritingWav(f)
        | Phase::Muxing(f)
        | Phase::RemovingWav(f, _)
        | Phase::RemovingPartial(f)
        | Phase::ClearingForMuxed(f)
        | Phase::RenamingMuxed(f) => Some(f),
        _ => None,
    }
}

/// A stop that succeeds ends with nothing finalized if and only if the encoder produced no
/// video. Whatever fails on the way, a video is merged with its audio, put into place alone, or
/// left where it was.
pub proof fn lemma_footage_is_finalized(start: RecorderModel, events: Seq<Event>)
    requires
        start.phase is StoppingCapture,
        start.finalized is Nothing,
        start.failure is None,
        is_run(start, events),
    ensures
        ({
            let s = state_after(start, events);
            &&& rank(s.phase) >= 7
            &&& footage_at(s.phase) is Some ==> footage_in(events) == footage_at(s.phase)
            &&& 11 <= rank(s.phase) <= 18 ==> footage_in(events) is Some && !(footage_in(
                events,
            )->0 is Missing)
            &&& rank(s.phase) < 19 ==> s.finalized is Nothing && s.failure is None
            &&& s.phase is Ended && s.failure is None ==> footage_in(events) is Some && (
            footage_in(events)->0 is Missing <==> s.finalized is Nothing)
        }),
    decreases events.len(),
{
    if events.len() > 0 {
        lemma_footage_is_finalized(start, events.drop_last());
    }
}

/// The video of a recording is a file of its own: whenever it starts, its name is neither that of
/// the finished file nor that of the file that video and audio are merged into.
pub proof fn lemma_video_stands_apart(
    plan: RecordPlan,
    encode: EncodePlan,
    first_frame: FrameChunk,
    stamp: Seq<char>,
)
    requires
        plan.has_names(),
        encode.is_for(first_frame, plan.fps, plan.duration, stamp),
    ensures
        encode.video_only@ != plan.final_name@,
        encode.video_only@ != plan.partial_name@,
        plan.final_name@ != plan.partial_name@,
{
    reveal_strlit(".video_");
    reveal_strlit(".mp4");
    reveal_strlit("recording.mp4");
    reveal_strlit("recording.muxing.mp4");
    assert(encode.video_only@[0] == '.');
    assert(plan.final_name@[0] == 'r');
    assert(plan.partial_name@[0] == 'r');
    assert(plan.final_name@.len() != plan.partial_name@.len());
}

/// The files that hold the footage of the encoder.
pub struct Whereabouts {
    /// The video file does.
    pub at_video: bool,
    /// The final file does, with its audio or without.
    pub at_final: bool,
}

/// Where the footage is after `event` in state `s`, if every removal that is asked for happens.
pub open spec fn moved_by(w: Whereabouts, s: RecorderModel, event: Event) -> Whereabouts {
    match (s.phase, event) {
        (Phase::JoiningEncoder, Event::Encoded(_)) => Whereabouts {
            at_video: true,
            at_final: false,
        },
        (Phase::ClearingForMuxed(_), _) | (Phase::ClearingForVideo, _) => Whereabouts {
            at_final: false,
            ..w
        },
        (Phase::RenamingMuxed(_), Event::Succeeded) => Whereabouts { at_final: true, ..w },
        (Phase::RemovingVideo, _) => Whereabouts { at_video: false, ..w },
        (Phase::RenamingVideo, Event::Succeeded) => Whereabouts {
            at_video: false,
            at_final: true,
        },
        _ => w,
    }
}

/// Where the footage is after a row of events.
pub open spec fn whereabouts(start: RecorderModel, events: Seq<Event>) -> Whereabouts
    decreases events.len(),
{
    if events.len() == 0 {
        Whereabouts { at_video: false, at_final: false }
    } else {
        moved_by(
            whereabouts(start, events.drop_last()),
            state_after(start, events.drop_last()),
            events.last(),
        )
    }
}

/// Footage in a file of its own, which it always is, is never lost: from the end of the encoder on, whatever fails,
/// the video file or the final file holds it, and in the end it is where the recorder says.
pub proof fn lemma_footage_is_never_lost(start: RecorderModel, events: Seq<Event>)
    requires
        start.phase is StoppingCapture,
        start.finalized is Nothing,
        start.failure is None,
        is_run(start, events),
        footage_in(events) == Some(Footage::Apart),
    ensures
        ({
            let s = state_after(start, events);
            let w = whereabouts(start, events);
            &&& w.at_video || w.at_final
            &&& rank(s.phase) >= 10
            &&& s.failure is None
            &&& rank(s.phase) < 19 && !(s.phase is RemovingVideo) ==> w.at_video
            &&& s.phase is RemovingVideo ==> w.at_final
            &&& s.phase is Ended ==> match s.finalized {
                Finalized::Nothing => false,
                Finalized::Muxed | Finalized::VideoOnly => w.at_final,
                Finalized::LeftApart => w.at_video,
            }
        }),
    decreases events.len(),
{
    let before = events.drop_last();
    lemma_footage_is_finalized(start, events);
    lemma_footage_is_finalized(start, before);
    if !(events.last() is Encoded) {
        lemma_footage_is_never_lost(start, before);
    }
}

/// The frame buffer holds two seconds of frames, and sixty where that is more.
pub proof fn lemma_buffer_holds_two_seconds(fps: u32)
    ensures
        buffer_frames(fps) >= 60,
        buffer_frames(fps) >= 2 * fps,
        buffer_frames(fps) == 60 || buffer_frames(fps) == 2 * fps,
{
}

/// What is done in answer to each event while a recording starts. The window is searched, its
/// process resolved, and the sound of just that process recorded, if sound is wanted: of the whole
/// system only where the process could not be resolved. Sound that does not start costs the
/// recording nothing. Then come the encoder and the capture. Only a missing window and a capture
/// that does not start are failures, and they say why.
pub proof fn lemma_starting_leads_on(s: RecorderModel, event: Event)
    requires
        s.accepts(event),
        rank(s.phase) < rank(Phase::Running),
    ensures
        ({
            let next = s.after(event);
            let job = action_of(next.phase);
            &&& next.wants_audio == s.wants_audio
            &&& next.finalized == s.finalized
            &&& match (action_of(s.phase), event) {
                (Action::CreateOutputDir, _) => event is Done && job == Action::DetectWindow,
                (Action::DetectWindow, Event::Succeeded) => job == Action::ResolvePid,
                (Action::DetectWindow, Event::Failed(reason)) => job == Action::End
                    && next.failure == Some("Failed to detect window: "@ + reason@),
                (Action::ResolvePid, Event::Pid(pid)) => job == if s.wants_audio {
                    Action::StartAudio(pid)
                } else {
                    Action::SpawnEncoder
                },
                (Action::StartAudio(_), Event::Succeeded) => job == Action::SpawnEncoder
                    && next.has_audio,
                (Action::StartAudio(_), Event::Failed(_)) => job == Action::SpawnEncoder
                    && !next.has_audio,
                (Action::SpawnEncoder, _) => event is Done && job == Action::StartCapture,
                (Action::StartCapture, Event::Succeeded) => job == Action::Run,
                (Action::StartCapture, Event::Failed(reason)) => job == Action::End
                    && next.failure == Some("Failed to start capture: "@ + reason@),
                _ => false,
            }
            &&& !(s.phase is StartingAudio) ==> next.has_audio == s.has_audio
            &&& job != Action::End ==> next.failure == s.failure
        }),
{
}

/// What is done in answer to each event while a recording stops. The capture is stopped, the
/// encoder told to end and waited for, and then the sound is stopped. Where there is a video and
/// sound, the sound is written down and merged into it; where any of that fails, and where there
/// is no sound, the video takes the final place alone. Only a capture that does not stop and an
/// encoder that panicked are failures, and they say why.
pub proof fn lemma_stopping_leads_on(s: RecorderModel, event: Event)
    requires
        s.accepts(event),
        rank(s.phase) > rank(Phase::Running),
    ensures
        ({
            let next = s.after(event);
            let job = action_of(next.phase);
            // The video goes to its place without sound.
            let alone = |footage: Footage|
                match footage {
                    Footage::Apart => job == Action::RemoveFinal && next.phase
                        is ClearingForVideo,
                    Footage::InPlace => job == Action::End && next.finalized
                        == Finalized::VideoOnly,
                    Footage::Missing => job == Action::End && next.finalized
                        == Finalized::Nothing,
                };
            &&& next.wants_audio == s.wants_audio && next.has_audio == s.has_audio
            &&& match (action_of(s.phase), event) {
                (Action::StopCapture, Event::Succeeded) => job == Action::SignalShutdown,
                (Action::StopCapture, Event::Failed(reason)) => job == Action::End && next.failure
                    == Some("Failed to stop capture: "@ + reason@),
                (Action::SignalShutdown, _) => event is Done && job == Action::JoinEncoder,
                (Action::JoinEncoder, Event::Encoded(footage)) => job == Action::StopAudio
                    && footage_at(next.phase) == Some(footage),
                (Action::JoinEncoder, _) => event is Panicked && job == Action::End
                    && next.failure == Some("Encoder thread panicked"@),
                (Action::StopAudio, Event::Track(track)) => if track && !(footage_at(s.phase)
                    == Some(Footage::Missing)) {
                    job == Action::WriteWav
                } else {
                    alone(footage_at(s.phase)->0)
                },
                (Action::WriteWav, Event::Succeeded) => job == Action::RunMux,
                (Action::WriteWav, Event::Failed(_)) => alone(footage_at(s.phase)->0),
                (Action::RunMux, Event::Unlaunched) => alone(footage_at(s.phase)->0),
                (Action::RunMux, Event::Succeeded) => job == Action::RemoveWav && next.phase
                    == Phase::RemovingWav(footage_at(s.phase)->0, true),
                (Action::RunMux, Event::Failed(_)) => job == Action::RemoveWav && next.phase
                    == Phase::RemovingWav(footage_at(s.phase)->0, false),
                (Action::RemoveWav, _) => event is Done && job == if s.phase
                    == Phase::RemovingWav(footage_at(s.phase)->0, true) {
                    Action::RemoveFinal
                } else {
                    Action::RemovePartial
                },
                (Action::RemovePartial, _) => event is Done && alone(footage_at(s.phase)->0),
                (Action::RemoveFinal, _) => event is Done && job == if s.phase
                    is ClearingForVideo {
                    Action::RenameVideo
                } else {
                    Action::RenameMuxed
                },
                (Action::RenameMuxed, Event::Succeeded) => job == Action::RemoveVideo,
                (Action::RenameMuxed, Event::Failed(_)) => alone(footage_at(s.phase)->0),
                (Action::RemoveVideo, _) => event is Done && job == Action::End && next.finalized
                    == Finalized::Muxed,
                (Action::RenameVideo, Event::Succeeded) => job == Action::End && next.finalized
                    == Finalized::VideoOnly,
                (Action::RenameVideo, Event::Failed(_)) => job == Action::End && next.finalized
                    == Finalized::LeftApart,
                _ => false,
            }
            // What the recording is about stays the same until it is in place.
            &&& footage_at(next.phase) is Some && footage_at(s.phase) is Some ==> footage_at(
                next.phase,
            ) == footage_at(s.phase)
            &&& !(s.phase is StoppingCapture || s.phase is JoiningEncoder) ==> next.failure
                == s.failure
        }),
{
}

/// Whatever can come of an action is accepted. While it runs, a recording only waits to be
/// stopped, and when it has ended, nothing more happens.
pub proof fn lemma_every_answer_is_accepted(s: RecorderModel, event: Event)
    ensures
        s.accepts(event) <==> match action_of(s.phase) {
            Action::CreateOutputDir
            | Action::SpawnEncoder
            | Action::SignalShutdown
            | Action::RemoveWav
            | Action::RemovePartial
            | Action::RemoveFinal
            | Action::RemoveVideo => event is Done,
            Action::DetectWindow
            | Action::StartAudio(_)
            | Action::StartCapture
            | Action::StopCapture
            | Action::WriteWav
            | Action::RenameMuxed
            | Action::RenameVideo => event is Succeeded || event is Failed,
            Action::RunMux => event is Succeeded || event is Failed || event is Unlaunched,
            Action::ResolvePid => event is Pid,
            Action::JoinEncoder => event is Encoded || event is Panicked,
            Action::StopAudio => event is Track,
            Action::Run | Action::End => false,
        },
{
}

/// A recording starts with its output directory, without sound, without a result and without a
/// failure, and wants sound if and only if that was asked for.
pub proof fn lemma_recording_starts_anew(wants_audio: bool)
    ensures
        ({
            let s = RecorderModel::start(wants_audio);
            &&& action_of(s.phase) == Action::CreateOutputDir
            &&& s.wants_audio == wants_audio
            &&& !s.has_audio
            &&& s.finalized == Finalized::Nothing
            &&& s.failure is None
            &&& action_of(Phase::Running) == Action::Run
            &&& action_of(s.enter(Phase::StoppingCapture).phase) == Action::StopCapture
            &&& s.enter(Phase::StoppingCapture).has_audio == s.has_audio
        }),
{
}

/// The sound that is recorded is that of the process that was resolved: in every run that comes
/// to start it, it is started for just that process.
pub proof fn lemma_sound_is_that_of_the_window(
    s: RecorderModel,
    pid: Option<u32>,
    started: Option<u32>,
)
    requires
        s.phase is ResolvingPid,
        s.wants_audio,
        action_of(s.after(Event::Pid(pid)).phase) == Action::StartAudio(started),
    ensures
        started == pid,
{
}

/// A plan takes everything from its configuration: where the recording goes, which window it is
/// of, its rate, its length, and whether there is sound. At most as many frames come in a second
/// as the rate says, to the nanosecond, and two seconds of them have room, but at least sixty.
pub proof fn lemma_plan_is_that_of_the_configuration(plan: RecordPlan, config: Config)
    requires
        config.capture.fps > 0,
        plan.follows(config),
    ensures
        plan.output_dir == config.capture.output_dir,
        plan.window_title == config.general.capture_target_window_title,
        plan.fps == config.capture.fps,
        plan.duration == config.capture.duration,
        plan.audio == config.capture.audio,
        plan.frame_interval * plan.fps <= 1_000_000_000 < (plan.frame_interval + 1) * plan.fps,
        plan.buffer_size >= 60 && plan.buffer_size >= 2 * plan.fps,
        plan.buffer_size == 60 || plan.buffer_size == 2 * plan.fps,
        plan.final_name@ == "recording.mp4"@,
{
    let fps = plan.fps as int;
    let interval = plan.frame_interval as int;
    assert(interval * fps <= 1_000_000_000 < (interval + 1) * fps) by (nonlinear_arith)
        requires
            interval == 1_000_000_000int / fps,
            fps > 0,
    ;
}

} // verus!
