use std::sync::Arc;
use typhoon_rs::backend::capture::encoder::{
    due_slots, pad_frames, Action, Encoder, Event, FrameChunk, MAX_FILL,
};
use typhoon_rs::util::clock::Moment;

fn at(ms: u64) -> Moment {
    Moment { nanos: ms * 1_000_000 }
}

fn frame(byte: u8, ms: u64) -> FrameChunk {
    FrameChunk { data: Arc::from(vec![byte; 4].into_boxed_slice()), width: 1, height: 1, timestamp: at(ms) }
}

fn running(fps: u32) -> Encoder {
    let mut e = Encoder::new(frame(1, 1000), fps, at(1000));
    assert_eq!(e.action(), Action::WriteFrame);
    assert_eq!(e.pending_frame(), &[1u8, 1, 1, 1][..]);
    e.step(Event::Wrote);
    e
}

#[test]
fn slots_round_to_the_nearest_frame() {
    assert_eq!(due_slots(at(1000), 30, at(1000)), 0);
    assert_eq!(due_slots(at(1000), 30, at(2000)), 30);
    assert_eq!(due_slots(at(1000), 30, at(1016)), 0);
    assert_eq!(due_slots(at(1000), 30, at(1017)), 1);
    assert_eq!(due_slots(at(0), 50, at(10)), 1);
    assert_eq!(due_slots(at(1000), 30, at(500)), 0);
    assert_eq!(due_slots(Moment { nanos: 0 }, u32::MAX, Moment { nanos: u64::MAX }), u64::MAX);
}

#[test]
fn padding_is_capped() {
    assert_eq!(pad_frames(10, 10), 0);
    assert_eq!(pad_frames(10, 9), 0);
    assert_eq!(pad_frames(10, 13), 3);
    assert_eq!(pad_frames(0, 600), 600);
    assert_eq!(pad_frames(0, 601), 600);
    assert_eq!(pad_frames(5, u64::MAX), MAX_FILL);
}

#[test]
fn a_gap_is_filled_with_the_frame_before_it() {
    let mut e = running(30);
    assert_eq!(e.frame_count(), 1);
    assert_eq!(e.action(), Action::Receive);
    e.step(Event::Frame(frame(2, 1200)));
    assert_eq!(e.action(), Action::WriteDuplicates(5));
    assert_eq!(e.last_frame(), &[1u8, 1, 1, 1][..]);
    e.step(Event::Padded(5));
    assert_eq!(e.action(), Action::WriteFrame);
    assert_eq!(e.pending_frame(), &[2u8, 2, 2, 2][..]);
    e.step(Event::Wrote);
    assert_eq!(e.frame_count(), 7);
    assert_eq!(e.duplicated(), 5);
    assert_eq!(e.last_frame(), &[2u8, 2, 2, 2][..]);
    assert_eq!(e.action(), Action::ReadClock);
    e.step(Event::Clock(at(1200)));
    assert_eq!(e.action(), Action::Receive);
}

#[test]
fn a_static_screen_keeps_the_timeline_moving() {
    let mut e = running(30);
    e.step(Event::Idle(at(1100)));
    assert_eq!(e.action(), Action::WriteDuplicates(2));
    e.step(Event::Padded(2));
    assert_eq!(e.frame_count(), 3);
    assert_eq!(e.action(), Action::FlushAndPoll);
    e.step(Event::Polled(false));
    assert_eq!(e.action(), Action::ReadClock);
    e.step(Event::Clock(at(1100)));
    e.step(Event::Idle(at(1100)));
    assert_eq!(e.action(), Action::FlushAndPoll);
    e.step(Event::Polled(true));
    assert_eq!(e.action(), Action::Finish);
}

#[test]
fn a_failed_write_ends_the_recording() {
    let mut e = Encoder::new(frame(1, 0), 30, at(0));
    e.step(Event::WriteFailed);
    assert_eq!(e.action(), Action::Finish);
    assert_eq!(e.frame_count(), 0);

    let mut e = running(30);
    e.step(Event::Frame(frame(2, 1200)));
    e.step(Event::Padded(3));
    assert_eq!(e.action(), Action::Finish);
    assert_eq!(e.frame_count(), 4);
    assert_eq!(e.duplicated(), 0);

    let mut e = running(30);
    e.step(Event::Disconnected);
    assert_eq!(e.action(), Action::Finish);
}

#[test]
fn every_thirtieth_frame_flushes() {
    let mut e = running(30);
    let mut flushes = 0;
    for i in 0..59u64 {
        e.step(Event::Frame(frame(3, 1000 + i)));
        assert_eq!(e.action(), Action::WriteFrame);
        e.step(Event::Wrote);
        if e.action() == Action::Flush {
            assert_eq!(e.frame_count() % 30, 0);
            flushes += 1;
            e.step(Event::Flushed);
        }
        e.step(Event::Clock(at(1000)));
    }
    assert_eq!(e.frame_count(), 60);
    assert_eq!(flushes, 2);
}

#[test]
fn segments_are_pruned_once_a_second() {
    let mut e = running(30);
    e.step(Event::Frame(frame(2, 1000)));
    e.step(Event::Wrote);
    e.step(Event::Clock(at(1999)));
    assert_eq!(e.action(), Action::Receive);
    e.step(Event::Frame(frame(2, 1000)));
    e.step(Event::Wrote);
    e.step(Event::Clock(at(2000)));
    assert_eq!(e.action(), Action::Prune);
    e.step(Event::Pruned(at(2005)));
    e.step(Event::Frame(frame(2, 1000)));
    e.step(Event::Wrote);
    e.step(Event::Clock(at(3004)));
    assert_eq!(e.action(), Action::Receive);
}

#[test]
fn every_frame_is_written_in_order_and_followed_by_its_own_copies() {
    let mut e = Encoder::new(frame(1, 1000), 10, at(1000));
    let mut timeline: Vec<u8> = Vec::new();
    let mut incoming = vec![
        Event::Frame(frame(2, 1310)),
        Event::Frame(frame(3, 1320)),
        Event::Idle(at(1700)),
        Event::Frame(frame(4, 1900)),
        Event::Disconnected,
    ]
    .into_iter();
    loop {
        let event = match e.action() {
            Action::Receive => incoming.next().unwrap(),
            Action::WriteDuplicates(n) => {
                for _ in 0..n {
                    timeline.push(e.last_frame()[0]);
                }
                Event::Padded(n)
            }
            Action::WriteFrame => {
                timeline.push(e.pending_frame()[0]);
                Event::Wrote
            }
            Action::Flush => Event::Flushed,
            Action::FlushAndPoll => Event::Polled(false),
            Action::ReadClock => Event::Clock(at(1000)),
            Action::Prune => Event::Pruned(at(1000)),
            Action::Finish => break,
        };
        e.step(event);
    }
    assert_eq!(timeline, vec![1, 1, 1, 2, 3, 3, 3, 3, 3, 4]);
    assert_eq!(e.frame_count(), 10);
    assert_eq!(e.duplicated(), 6);
}
