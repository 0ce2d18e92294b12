use typhoon_rs::backend::capture::record::{
    frame_interval, Action, CaptureHandler, Event, Finalized, Footage, Handover, RecordPlan,
    ReaderGone, Recorder,
};
use typhoon_rs::util::config::capture::{default_audio, CaptureConfig};
use typhoon_rs::util::config::general::GeneralConfig;
use typhoon_rs::util::config::Config;

fn config(fps: u32, audio: bool) -> Config {
    Config {
        general: GeneralConfig {
            log_level: "info".to_string(),
            log_dir: "logs".to_string(),
            lifetime: 7,
            capture_target_window_title: "Game".to_string(),
        },
        capture: CaptureConfig { fps, duration: 30, output_dir: "out".to_string(), audio },
    }
}

fn running(audio: bool) -> Recorder {
    let mut r = Recorder::start(&RecordPlan::new(&config(30, audio)));
    r.step(Event::Done);
    r.step(Event::Succeeded);
    r.step(Event::Pid(Some(5)));
    if audio {
        r.step(Event::Succeeded);
    }
    r.step(Event::Done);
    r.step(Event::Succeeded);
    assert_eq!(r.action(), Action::Run);
    r
}

fn encoded(footage: Footage) -> Recorder {
    let mut r = running(true);
    r.stop();
    assert_eq!(r.action(), Action::StopCapture);
    r.step(Event::Succeeded);
    assert_eq!(r.action(), Action::SignalShutdown);
    r.step(Event::Done);
    assert_eq!(r.action(), Action::JoinEncoder);
    r.step(Event::Encoded(footage));
    assert_eq!(r.action(), Action::StopAudio);
    r
}

#[test]
fn the_finished_file_has_its_name() {
    let plan = RecordPlan::new(&config(30, true));
    assert_eq!(plan.final_name, "recording.mp4");
    assert_eq!(plan.partial_name, "recording.muxing.mp4");
}

#[test]
fn plans_follow_the_configuration() {
    let p = RecordPlan::new(&config(30, true));
    assert_eq!(p.buffer_size, 60);
    assert_eq!(p.frame_interval, 33_333_333);
    assert_eq!((p.fps, p.duration, p.audio), (30, 30, true));
    assert_eq!((p.output_dir.as_str(), p.window_title.as_str()), ("out", "Game"));
    assert_eq!(RecordPlan::new(&config(24, false)).buffer_size, 60);
    assert_eq!(RecordPlan::new(&config(144, false)).buffer_size, 288);
    assert_eq!(frame_interval(60), 16_666_666);
    assert!(default_audio());
}

#[test]
fn a_full_buffer_drops_the_frame() {
    let h = CaptureHandler;
    assert_eq!(h.on_frame_arrived(Handover::Taken), Ok(()));
    assert_eq!(h.on_frame_arrived(Handover::Full), Ok(()));
    assert_eq!(h.on_frame_arrived(Handover::Disconnected), Err(ReaderGone));
}

#[test]
fn audio_starts_before_the_capture() {
    let mut r = Recorder::start(&RecordPlan::new(&config(30, true)));
    assert_eq!(r.action(), Action::CreateOutputDir);
    r.step(Event::Done);
    assert_eq!(r.action(), Action::DetectWindow);
    r.step(Event::Succeeded);
    assert_eq!(r.action(), Action::ResolvePid);
    r.step(Event::Pid(None));
    assert_eq!(r.action(), Action::StartAudio(None));
    r.step(Event::Failed("no device".to_string()));
    assert!(!r.has_audio());
    assert_eq!(r.action(), Action::SpawnEncoder);
    r.step(Event::Done);
    assert_eq!(r.action(), Action::StartCapture);
    r.step(Event::Succeeded);
    assert_eq!(r.action(), Action::Run);
    assert_eq!(r.outcome(), Ok(()));
    assert!(running(true).has_audio());
    assert!(!running(false).has_audio());
}

#[test]
fn starting_can_fail() {
    let mut r = Recorder::start(&RecordPlan::new(&config(30, false)));
    r.step(Event::Done);
    r.step(Event::Failed("No target window found".to_string()));
    assert_eq!(r.action(), Action::End);
    assert_eq!(r.outcome(), Err("Failed to detect window: No target window found".to_string()));

    let mut r = Recorder::start(&RecordPlan::new(&config(30, false)));
    r.step(Event::Done);
    r.step(Event::Succeeded);
    r.step(Event::Pid(Some(1)));
    r.step(Event::Done);
    r.step(Event::Failed("busy".to_string()));
    assert_eq!(r.outcome(), Err("Failed to start capture: busy".to_string()));
}

#[test]
fn stopping_can_fail() {
    let mut r = running(false);
    r.stop();
    r.step(Event::Failed("gone".to_string()));
    assert_eq!(r.outcome(), Err("Failed to stop capture: gone".to_string()));
    let mut r = running(false);
    r.stop();
    r.step(Event::Succeeded);
    r.step(Event::Done);
    r.step(Event::Panicked);
    assert_eq!(r.outcome(), Err("Encoder thread panicked".to_string()));
    assert_eq!(r.finalized(), Finalized::Nothing);
}

#[test]
fn audio_is_merged_into_the_video() {
    let mut r = encoded(Footage::Apart);
    r.step(Event::Track(true));
    assert_eq!(r.action(), Action::WriteWav);
    r.step(Event::Succeeded);
    assert_eq!(r.action(), Action::RunMux);
    r.step(Event::Succeeded);
    assert_eq!(r.action(), Action::RemoveWav);
    r.step(Event::Done);
    assert_eq!(r.action(), Action::RemoveFinal);
    r.step(Event::Done);
    assert_eq!(r.action(), Action::RenameMuxed);
    r.step(Event::Succeeded);
    assert_eq!(r.action(), Action::RemoveVideo);
    r.step(Event::Done);
    assert_eq!(r.action(), Action::End);
    assert_eq!(r.finalized(), Finalized::Muxed);
    assert_eq!(r.outcome(), Ok(()));
}

fn promote(mut r: Recorder) {
    assert_eq!(r.action(), Action::RemoveFinal);
    r.step(Event::Done);
    assert_eq!(r.action(), Action::RenameVideo);
    r.step(Event::Succeeded);
    assert_eq!(r.finalized(), Finalized::VideoOnly);
    assert_eq!(r.outcome(), Ok(()));
}

#[test]
fn a_failed_merge_keeps_the_video() {
    let mut r = encoded(Footage::Apart);
    r.step(Event::Track(true));
    r.step(Event::Failed("timelines".to_string()));
    promote(r);

    let mut r = encoded(Footage::Apart);
    r.step(Event::Track(true));
    r.step(Event::Succeeded);
    r.step(Event::Unlaunched);
    promote(r);

    let mut r = encoded(Footage::Apart);
    r.step(Event::Track(true));
    r.step(Event::Succeeded);
    r.step(Event::Failed("mux".to_string()));
    assert_eq!(r.action(), Action::RemoveWav);
    r.step(Event::Done);
    assert_eq!(r.action(), Action::RemovePartial);
    r.step(Event::Done);
    promote(r);

    let mut r = encoded(Footage::Apart);
    r.step(Event::Track(true));
    r.step(Event::Succeeded);
    r.step(Event::Succeeded);
    r.step(Event::Done);
    r.step(Event::Done);
    r.step(Event::Failed("rename".to_string()));
    promote(r);
}

#[test]
fn without_audio_the_video_goes_alone() {
    let mut r = encoded(Footage::Apart);
    r.step(Event::Track(false));
    promote(r);

    let mut r = encoded(Footage::Apart);
    r.step(Event::Track(false));
    r.step(Event::Done);
    r.step(Event::Failed("locked".to_string()));
    assert_eq!(r.finalized(), Finalized::LeftApart);
    assert_eq!(r.outcome(), Ok(()));

    let mut r = encoded(Footage::InPlace);
    r.step(Event::Track(false));
    assert_eq!((r.action(), r.finalized()), (Action::End, Finalized::VideoOnly));

    let mut r = encoded(Footage::Missing);
    r.step(Event::Track(true));
    assert_eq!((r.action(), r.finalized()), (Action::End, Finalized::Nothing));
}
