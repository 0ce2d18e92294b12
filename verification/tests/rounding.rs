//! Times are counted in double precision; here the counts are held against floating point.

use std::time::Duration;

use typhoon_rs::backend::capture::audio::AudioTrack;
use typhoon_rs::backend::capture::encoder::due_slots;
use typhoon_rs::backend::capture::retention::{AudioChunk, AudioWindow, PollTime};
use typhoon_rs::util::clock::Moment;
use typhoon_rs::util::double::{count_nanos, count_units};

fn next(seed: &mut u64) -> u64 {
    *seed = seed.wrapping_mul(6364136223846793005).wrapping_add(1442695040888963407);
    (*seed >> 32) | (*seed << 32)
}

fn slots(elapsed: u64, fps: u32) -> u64 {
    (Duration::from_nanos(elapsed).as_secs_f64() * fps as f64).round() as u64
}

#[test]
fn slots_are_those_of_double_precision() {
    let first = Moment { nanos: 77 };
    let mut seed: u64 = 1;
    for fps in [0u32, 1, 24, 25, 30, 60, 100, 144, 240, 1_000_003, u32::MAX] {
        for round in 0..1500u64 {
            // Of all sizes, from nothing up to the whole clock.
            let elapsed = (next(&mut seed) >> (round % 64)).min(u64::MAX - 77);
            assert_eq!(due_slots(first, fps, Moment { nanos: 77 + elapsed }), slots(elapsed, fps));
        }
        // On and about the middle between two slots.
        for slot in 0..1500u64 {
            let middle = (2 * slot + 1) * 500_000_000 / fps.max(1) as u64;
            for elapsed in [middle.saturating_sub(1), middle, middle + 1] {
                assert_eq!(
                    due_slots(first, fps, Moment { nanos: 77 + elapsed }),
                    slots(elapsed, fps)
                );
            }
        }
    }
    // The product is 100.49999999999999.
    assert_eq!(due_slots(Moment { nanos: 0 }, 100, Moment { nanos: 1_005_000_000 }), 100);
    // A moment before the first frame counts as the first frame.
    assert_eq!(due_slots(first, 30, Moment { nanos: 0 }), 0);
    // More slots than can be counted.
    assert_eq!(due_slots(Moment { nanos: 0 }, u32::MAX, Moment { nanos: u64::MAX }), u64::MAX);
}

#[test]
fn units_beyond_64_bits_are_counted() {
    let seconds = Duration::from_nanos(u64::MAX).as_secs_f64();
    assert_eq!(count_units(u64::MAX, u32::MAX), (seconds * u32::MAX as f64).round() as u128);
}

#[test]
fn durations_are_those_of_double_precision() {
    let mut seed: u64 = 3;
    for rate in [1u32, 3, 7, 8_000, 44_100, 48_000, 96_000, 1_000_003, u32::MAX] {
        for round in 0..1500u64 {
            let count = (next(&mut seed) >> (1 + round % 63)).min(1 << 62);
            let expected = Duration::from_secs_f64(count as f64 / rate as f64);
            assert_eq!(count_nanos(count, rate), expected.as_nanos());
        }
    }
    assert_eq!(count_nanos(100_000_001, 3), 33_333_333_666_666_668);
    for rate in [8_000u32, 44_100, 48_000, 0] {
        for frames in [0usize, 1, 2, 3, 479, 480, 44_100, 48_001, 1_234_567] {
            let track = AudioTrack {
                samples: vec![0; frames],
                sample_rate: rate,
                channels: 1,
                start: Moment { nanos: 0 },
            };
            let expected = Duration::from_secs_f64(frames as f64 / rate.max(1) as f64);
            assert_eq!(track.duration(), expected.as_nanos());
        }
    }
}

#[test]
fn the_first_sample_retained_has_its_time() {
    let mut window = AudioWindow::new(1, 3, 1);
    let chunk = AudioChunk { pts_ns: 0, frames: 8, data: vec![0; 8] };
    window.push_chunk(&chunk, PollTime { audio_ns: 0, now: Moment { nanos: 1_000 } });
    let start = window.finish().unwrap().start;
    let front = Duration::from_secs_f64(5.0 / 3.0);
    assert_eq!(start.nanos as u128, 1_000 + front.as_nanos());
}

#[test]
fn alignment_is_that_of_double_precision() {
    let mut seed: u64 = 9;
    let origin: u64 = 1_000_000_000;
    for rate in [8_000u32, 44_100, 48_000] {
        for _ in 0..300 {
            // Every other gap stands in the middle between two frames.
            let frame = next(&mut seed) % 800;
            for gap in [frame * 125_000 + 62_500, (2 * frame + 1) * 500_000_000 / rate as u64] {
                let shift = (Duration::from_nanos(gap).as_secs_f64() * rate as f64).round() as usize;
                let track = AudioTrack {
                    samples: vec![7; 6_000],
                    sample_rate: rate,
                    channels: 1,
                    start: Moment { nanos: origin },
                };
                let late = track.write_wav_aligned(Moment { nanos: origin - gap }).unwrap();
                assert_eq!(late.len(), 44 + 2 * (6_000 + shift));
                let early = track.write_wav_aligned(Moment { nanos: origin + gap }).unwrap();
                assert_eq!(early.len(), 44 + 2 * (6_000 - shift));
            }
        }
    }
}
