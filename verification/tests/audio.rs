use typhoon_rs::backend::capture::audio::{
    open_stream, retention_secs, write_wav_header, AudioRecorder, AudioSource, AudioTrack,
    StartReport, TimelinesDisagree,
};
use typhoon_rs::backend::capture::audio_thread::{Action, AudioThread, Event};
use typhoon_rs::backend::capture::retention::{AudioChunk, AudioWindow, PollTime};
use typhoon_rs::util::clock::Moment;

fn track(samples: Vec<i16>, sample_rate: u32, channels: u16, start_ms: u64) -> AudioTrack {
    AudioTrack { samples, sample_rate, channels, start: Moment { nanos: start_ms * 1_000_000 } }
}

fn ms(n: u64) -> Moment {
    Moment { nanos: n * 1_000_000 }
}

fn samples_in(file: &[u8]) -> Vec<i16> {
    file[44..].chunks(2).map(|b| i16::from_le_bytes([b[0], b[1]])).collect()
}

#[test]
fn frames_and_duration() {
    assert_eq!(track(vec![0; 9], 48_000, 2, 0).frames(), 4);
    assert_eq!(track(vec![0; 9], 48_000, 0, 0).frames(), 0);
    assert_eq!(track(vec![0; 96_000], 48_000, 2, 0).duration(), 1_000_000_000);
    assert_eq!(track(vec![0; 1], 48_000, 1, 0).duration(), 20_833);
    assert_eq!(track(vec![0; 2], 48_000, 1, 0).duration(), 41_667);
    assert_eq!(track(vec![0; 1], 1024, 1, 0).duration(), 976_562);
    assert_eq!(track(vec![0; 3], 1024, 1, 0).duration(), 2_929_688);
    assert_eq!(track(vec![0; 3], 0, 1, 0).duration(), 3_000_000_000);
}

#[test]
fn wav_header_bytes() {
    let mut w: Vec<u8> = vec![9];
    write_wav_header(&mut w, 48_000, 2, 8);
    let mut expected: Vec<u8> = vec![9];
    expected.extend_from_slice(b"RIFF");
    expected.extend_from_slice(&44u32.to_le_bytes());
    expected.extend_from_slice(b"WAVEfmt ");
    expected.extend_from_slice(&16u32.to_le_bytes());
    expected.extend_from_slice(&1u16.to_le_bytes());
    expected.extend_from_slice(&2u16.to_le_bytes());
    expected.extend_from_slice(&48_000u32.to_le_bytes());
    expected.extend_from_slice(&192_000u32.to_le_bytes());
    expected.extend_from_slice(&4u16.to_le_bytes());
    expected.extend_from_slice(&16u16.to_le_bytes());
    expected.extend_from_slice(b"data");
    expected.extend_from_slice(&8u32.to_le_bytes());
    assert_eq!(w, expected);
}

#[test]
fn late_audio_is_led_in_by_silence() {
    let t = track(vec![1, -2, i16::MIN, i16::MAX, 5, 6], 1000, 2, 1002);
    assert!(t.is_encodable(ms(1000)));
    let file = t.write_wav_aligned(ms(1000)).unwrap();
    assert_eq!(samples_in(&file), vec![0, 0, 0, 0, 1, -2, i16::MIN, i16::MAX, 5, 6]);
    assert_eq!(file.len(), 44 + 20);
    assert_eq!(&file[4..8], &56u32.to_le_bytes()[..]);
    assert_eq!(&file[40..44], &20u32.to_le_bytes()[..]);
}

#[test]
fn early_audio_is_trimmed() {
    let t = track(vec![1, 2, 3, 4, 5, 6], 1000, 2, 1000);
    assert_eq!(samples_in(&t.write_wav_aligned(ms(1001)).unwrap()), vec![3, 4, 5, 6]);
    assert_eq!(samples_in(&t.write_wav_aligned(ms(1000)).unwrap()), vec![1, 2, 3, 4, 5, 6]);
    assert_eq!(t.write_wav_aligned(ms(9000)).unwrap().len(), 44);
}

#[test]
fn offsets_round_to_the_nearest_frame() {
    let t = track(vec![1, 2, 3], 1000, 1, 1000);
    let early = |nanos: u64| samples_in(&t.write_wav_aligned(Moment { nanos }).unwrap()).len();
    assert_eq!(early(1_000_499_999), 3);
    assert_eq!(early(1_000_500_000), 2);
    assert_eq!(early(999_500_001), 3);
    assert_eq!(early(999_500_000), 4);
}

#[test]
fn disagreeing_timelines_are_refused() {
    let t = track(vec![1, 2, 3], 1000, 1, 1004);
    assert!(t.is_encodable(ms(1000)));
    assert_eq!(
        t.write_wav_aligned(ms(1000)),
        Err(TimelinesDisagree { lead_frames: 4, audio_frames: 3, sample_rate: 1000 })
    );
    assert_eq!(t.write_wav_aligned(ms(1001)).unwrap().len(), 44 + 12);
}

#[test]
fn headers_that_overflow_are_not_encodable() {
    assert!(!track(vec![1], u32::MAX, 2, 0).is_encodable(ms(0)));
    assert!(!track(vec![1], 8000, 40_000, 0).is_encodable(ms(0)));
    assert!(track(vec![1], 0, 0, 0).is_encodable(ms(0)));
}

fn chunk(pts_ns: i64, data: Vec<i16>) -> AudioChunk {
    AudioChunk { pts_ns, frames: data.len(), data }
}

fn polled(audio_ns: i64, now_ms: u64) -> PollTime {
    PollTime { audio_ns, now: ms(now_ms) }
}

#[test]
fn the_window_keeps_the_most_recent() {
    let mut w = AudioWindow::new(1, 4, 1);
    let c = chunk(1_000, vec![1, 2, 3]);
    assert!(w.has_room(&c, polled(1_000, 500)));
    w.push_chunk(&c, polled(1_000, 500));
    w.push_chunk(&chunk(750_001_000, vec![4, 5, 6]), polled(0, 0));
    assert!(w.can_finish());
    let t = w.finish().unwrap();
    assert_eq!(t.samples, vec![3, 4, 5, 6]);
    assert_eq!(t.start, ms(1000));
    assert_eq!((t.sample_rate, t.channels), (4, 1));
}

#[test]
fn the_anchor_takes_off_the_latency() {
    let mut w = AudioWindow::new(1, 4, 1);
    w.push_chunk(&chunk(2_000_000, vec![7]), polled(5_000_000, 500));
    assert_eq!(w.finish().unwrap().start, ms(497));
    let mut w = AudioWindow::new(1, 4, 1);
    w.push_chunk(&chunk(9_000_000, vec![7]), polled(5_000_000, 500));
    assert_eq!(w.finish().unwrap().start, ms(500));
    let w = AudioWindow::new(1, 4, 1);
    assert!(!w.has_room(&chunk(0, vec![7]), polled(5_000_000, 4)));
}

#[test]
fn holes_are_filled_with_silence() {
    let mut w = AudioWindow::new(10, 100, 2);
    let first = AudioChunk { pts_ns: 0, frames: 1, data: vec![1, 1] };
    w.push_chunk(&first, polled(0, 0));
    // Two frames of tolerance at 100 Hz: frame 3 is still in time, frame 4 is not.
    let near = AudioChunk { pts_ns: 30_000_000, frames: 1, data: vec![2, 2] };
    w.push_chunk(&near, polled(0, 0));
    let far = AudioChunk { pts_ns: 50_000_000, frames: 1, data: vec![3, 3] };
    w.push_chunk(&far, polled(0, 0));
    assert_eq!(w.finish().unwrap().samples, vec![1, 1, 2, 2, 0, 0, 0, 0, 0, 0, 3, 3]);
}

#[test]
fn a_window_without_audio_gives_no_track() {
    assert!(AudioWindow::new(1, 4, 1).finish().is_none());
    let mut w = AudioWindow::new(1, 4, 1);
    w.push_chunk(&chunk(0, Vec::new()), polled(0, 0));
    assert!(w.finish().is_none());
}

#[test]
fn the_thread_polls_sleeps_and_drains() {
    let mut t = AudioThread::new(1, 4, 0);
    assert_eq!(t.action(), Action::PollChunk);
    t.step(Event::Chunk(chunk(0, vec![1, 2]), polled(0, 100)));
    assert_eq!(t.action(), Action::PollChunk);
    t.step(Event::NoChunk);
    assert_eq!(t.action(), Action::DrainEvents);
    t.step(Event::EventsDrained);
    assert_eq!(t.action(), Action::PollShutdown);
    t.step(Event::Shutdown(false));
    assert_eq!(t.action(), Action::PollChunk);
    t.step(Event::NoChunk);
    t.step(Event::EventsDrained);
    t.step(Event::Shutdown(false));
    assert_eq!(t.action(), Action::Sleep);
    t.step(Event::Slept);
    t.step(Event::NoChunk);
    t.step(Event::EventsDrained);
    t.step(Event::Shutdown(true));
    assert_eq!(t.action(), Action::StopStream);
    t.step(Event::Stopped);
    // No gap is filled any more.
    t.step(Event::Chunk(chunk(60_000_000_000, vec![3, 4, 5]), polled(0, 0)));
    t.step(Event::NoChunk);
    assert_eq!(t.action(), Action::Finish);
    assert!(t.can_finish());
    let track = t.finish().unwrap();
    assert_eq!(track.samples, vec![2, 3, 4, 5]);
    assert_eq!(track.start, ms(350));
    assert_eq!(track.channels, 1);
}

#[test]
fn audio_that_comes_only_after_the_stop_is_kept() {
    let mut t = AudioThread::new(30, 48_000, 2);
    t.step(Event::NoChunk);
    t.step(Event::EventsDrained);
    t.step(Event::Shutdown(true));
    t.step(Event::Stopped);
    let late = AudioChunk { pts_ns: 2_000_000, frames: 1, data: vec![32767, 32767] };
    assert!(t.has_room(&late, polled(5_000_000, 500)));
    // The clock cannot tell of a moment before its origin.
    assert!(!t.has_room(&late, polled(5_000_000, 2)));
    t.step(Event::Chunk(late, polled(5_000_000, 500)));
    // The first chunk is the origin; later ones change nothing about that.
    let more = AudioChunk { pts_ns: i64::MIN, frames: 1, data: vec![1, 2] };
    assert!(t.has_room(&more, polled(i64::MAX, 0)));
    t.step(Event::Chunk(more, polled(i64::MAX, 0)));
    t.step(Event::NoChunk);
    assert_eq!(t.action(), Action::Finish);
    assert!(t.can_finish());
    let track = t.finish().unwrap();
    assert_eq!(track.samples, vec![32767, 32767, 1, 2]);
    assert_eq!(track.start, ms(497));
}

#[test]
fn the_track_is_the_end_of_all_that_was_polled() {
    let mut t = AudioThread::new(1, 3, 2);
    let one = AudioChunk { pts_ns: 0, frames: 2, data: vec![1, 2, 3, 4] };
    t.step(Event::Chunk(one, polled(0, 1_000)));
    t.step(Event::NoChunk);
    t.step(Event::EventsDrained);
    t.step(Event::Shutdown(true));
    t.step(Event::Stopped);
    let tail = AudioChunk { pts_ns: 0, frames: 2, data: vec![5, 6, 7, 8] };
    t.step(Event::Chunk(tail, polled(0, 0)));
    t.step(Event::NoChunk);
    let track = t.finish().unwrap();
    assert_eq!(track.samples, vec![3, 4, 5, 6, 7, 8]);
    assert_eq!(track.start, Moment { nanos: 1_333_333_333 });
}

#[test]
fn streams_fall_back_to_the_system() {
    let opening = open_stream(Some(42));
    let request = opening.request();
    assert_eq!(request.source, AudioSource::Process(42));
    assert!(!request.exclude_self);
    assert_eq!((request.sample_rate, request.channels), (48_000, 2));
    let second = match opening.failed("denied".to_string()) {
        Ok(next) => next,
        Err(_) => panic!("the system is tried next"),
    };
    assert_eq!(second.request().source, AudioSource::System);
    assert!(second.request().exclude_self);
    assert_eq!(
        second.failed("no device".to_string()).err().unwrap(),
        "system loopback failed: no device (process loopback earlier failed: denied)"
    );
    assert_eq!(
        open_stream(None).failed("no device".to_string()).err().unwrap(),
        "system loopback failed: no device"
    );
}

#[test]
fn starting_audio() {
    assert_eq!(retention_secs(0), 1);
    assert_eq!(retention_secs(30), 30);
    let r = AudioRecorder::start(StartReport::Ready(AudioSource::Process(7))).ok().unwrap();
    assert_eq!(r.source(), AudioSource::Process(7));
    let e = AudioRecorder::start(StartReport::Refused("why".to_string())).err().unwrap();
    assert_eq!(e.message, "failed to start audio capture: why");
    assert!(!e.signal_thread);
    let e = AudioRecorder::start(StartReport::Silent).err().unwrap();
    assert_eq!(e.message, "audio capture did not start within 5s");
    assert!(e.signal_thread);
    assert!(r.stop(Err(())).is_none());
    let r = AudioRecorder::start(StartReport::Ready(AudioSource::System)).ok().unwrap();
    assert_eq!(r.stop(Ok(Some(track(vec![1], 1, 1, 0)))).unwrap().samples, vec![1]);
}

#[test]
fn a_stream_without_a_rate_keeps_no_frames() {
    let mut w = AudioWindow::new(1, 0, 2);
    w.push_chunk(&chunk(0, vec![1, 2]), polled(0, 10));
    assert!(w.can_finish());
    assert!(w.finish().is_none());

    // Half a frame stays, and nothing tells when it was played.
    let mut w = AudioWindow::new(1, 0, 2);
    w.push_chunk(&chunk(0, vec![1, 2, 3]), polled(0, 10));
    assert!(!w.can_finish());
}
