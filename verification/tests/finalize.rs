use std::sync::Arc;

use typhoon_rs::backend::capture::encoder::FrameChunk;
use typhoon_rs::backend::capture::ffmpeg::EncodePlan;
use typhoon_rs::backend::capture::finalize::{Action, Event, Finalizer};
use typhoon_rs::util::clock::Moment;

fn names(list: &[&str]) -> Vec<String> {
    list.iter().map(|n| n.to_string()).collect()
}

fn text(s: &str) -> String {
    s.to_string()
}

const FIRST: Moment = Moment { nanos: 5_000_000_000 };

/// A finalizer that has waited for FFmpeg and pruned.
fn pruned() -> Finalizer {
    let mut f = Finalizer::new(FIRST, 3);
    assert_eq!(f.action(), Action::AwaitExit);
    f.step(Event::Exited);
    assert_eq!(f.action(), Action::Prune);
    f.step(Event::Done);
    assert_eq!(f.action(), Action::List);
    f
}

#[test]
fn segments_are_joined_in_order_and_the_origin_follows_the_first() {
    let dir = names(&["segment_00012.mp4", "notes.txt", "segment_00007.mp4", "segment_00008.mp4"]);
    let mut f = pruned();
    assert!(f.can_begin(&dir));
    f.step(Event::Listed(dir.clone()));
    assert_eq!(f.action(), Action::List);
    f.step(Event::Listed(dir));
    assert_eq!(f.action(), Action::Merge);
    assert_eq!(
        f.segments_to_merge(),
        &names(&["segment_00007.mp4", "segment_00008.mp4", "segment_00012.mp4"])
    );
    f.step(Event::Ran(true, text("exit status: 0"), String::new()));
    assert_eq!(f.merged(), Ok(3));
    assert_eq!(f.action(), Action::RemoveSegments);
    f.step(Event::Done);
    assert_eq!(f.action(), Action::Finish);
    let video = f.output(text("out/.video.mp4")).unwrap();
    assert_eq!(video.path, "out/.video.mp4");
    // Seven segments of three seconds lie before the footage.
    assert_eq!(video.start, Moment { nanos: 26_000_000_000 });
}

#[test]
fn nothing_is_joined_without_segments() {
    let mut f = pruned();
    f.step(Event::Listed(Vec::new()));
    f.step(Event::Listed(names(&["concat_list.txt"])));
    assert_eq!(f.action(), Action::RemoveSegments);
    assert_eq!(f.merged(), Ok(0));
    f.step(Event::Done);
    assert_eq!(f.action(), Action::Finish);
    assert!(f.output(text("v.mp4")).is_none());
}

#[test]
fn a_failed_merge_says_why_and_gives_no_video() {
    let dir = names(&["segment_00000.mp4"]);
    let mut f = pruned();
    f.step(Event::Listed(dir.clone()));
    f.step(Event::Listed(dir.clone()));
    f.step(Event::Ran(false, text("exit status: 1"), text("line one\nno such file\n")));
    assert_eq!(f.merged(), Err("ffmpeg concat failed (exit status: 1): no such file"));
    assert_eq!(f.action(), Action::RemoveSegments);
    f.step(Event::Done);
    assert!(f.output(text("v.mp4")).is_none());

    let mut f = pruned();
    f.step(Event::Listed(dir.clone()));
    f.step(Event::Listed(dir));
    f.step(Event::NotRun(text("program not found")));
    assert_eq!(f.merged(), Err("program not found"));

    let mut f = pruned();
    f.step(Event::Unlisted(text("gone")));
    f.step(Event::Unlisted(text("gone")));
    assert_eq!(f.merged(), Err("gone"));
    assert_eq!(f.action(), Action::RemoveSegments);
}

#[test]
fn a_directory_that_cannot_be_listed_gives_the_first_frame_as_origin() {
    let mut f = pruned();
    f.step(Event::Unlisted(text("busy")));
    f.step(Event::Listed(names(&["segment_00004.mp4"])));
    f.step(Event::Ran(true, text("exit status: 0"), String::new()));
    f.step(Event::Done);
    assert_eq!(f.output(text("v.mp4")).unwrap().start, FIRST);
}

#[test]
fn an_unknown_exit_leaves_everything_as_it_is() {
    let mut f = Finalizer::new(FIRST, 3);
    f.step(Event::ExitUnknown);
    assert_eq!(f.action(), Action::Abort);
    assert!(f.output(text("v.mp4")).is_none());
}

#[test]
fn an_origin_beyond_the_clock_is_told() {
    let f = pruned();
    // 4294967295 segments of three seconds fit; the clock ends at about 584 years.
    assert!(f.can_begin(&names(&["segment_4294967295.mp4"])));
    let mut late = Finalizer::new(Moment { nanos: u64::MAX }, 1);
    late.step(Event::Exited);
    late.step(Event::Done);
    assert!(late.can_begin(&names(&["segment_00000.mp4"])));
    assert!(!late.can_begin(&names(&["segment_00001.mp4"])));
}

#[test]
fn the_plan_cuts_and_names() {
    let data: Arc<[u8]> = Arc::from(vec![0u8; 4]);
    let frame = FrameChunk { data, width: 1920, height: 1080, timestamp: FIRST };
    let plan = EncodePlan::new(&frame, 30, 95, "20240229_235959");
    assert_eq!(plan.segments.segment_seconds, 10);
    assert_eq!(plan.segments.keep_segments, 11);
    assert_eq!(plan.segments_dir, ".segments_20240229_235959");
    assert_eq!(plan.video_only, ".video_20240229_235959.mp4");
    let args = plan.args("out/segment_%05d.mp4");
    assert_eq!(args[8], "1920x1080");
    assert_eq!(args[10], "30");
    assert_eq!(args[26], "expr:gte(t,n_forced*10)");
    assert_eq!(args[30], "10");
    assert_eq!(args[35], "out/segment_%05d.mp4");
    assert_eq!(args.len(), 36);

    let now = EncodePlan::starting_now(&frame, 30, 95);
    assert_eq!(now.segments_dir.len(), plan.segments_dir.len());
    assert_eq!(now.video_only.len(), plan.video_only.len());
    assert_eq!(
        now.segments_dir.trim_start_matches(".segments_"),
        now.video_only.trim_start_matches(".video_").trim_end_matches(".mp4")
    );
}
