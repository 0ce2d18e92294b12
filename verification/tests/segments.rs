use typhoon_rs::backend::capture::encoder::due_slots;
use typhoon_rs::backend::capture::ffmpeg::{
    concat_outcome, concat_segments, mux_args, mux_outcome, segment_pattern, segmenter_args,
    segments_dir_name, video_only_name,
};
use typhoon_rs::backend::capture::segments::{
    finalize_video, first_index, list_segments, prune_old_segments, read_segment_index,
    video_start, SegmentPlan,
};
use typhoon_rs::util::clock::Moment;

fn names(list: &[&str]) -> Vec<String> {
    list.iter().map(|s| s.to_string()).collect()
}

#[test]
fn plans_aim_for_ten_segments() {
    let plan = |d: u32| {
        let p = SegmentPlan::new(d);
        (p.segment_seconds, p.keep_segments)
    };
    assert_eq!(plan(0), (1, 1));
    assert_eq!(plan(1), (1, 2));
    assert_eq!(plan(10), (1, 11));
    assert_eq!(plan(11), (2, 7));
    assert_eq!(plan(30), (3, 11));
    assert_eq!(plan(95), (10, 11));
    assert_eq!(plan(u32::MAX), (429_496_730, 11));
}

#[test]
fn segment_names_are_read() {
    assert_eq!(read_segment_index("segment_00000.mp4"), Some(0));
    assert_eq!(read_segment_index("segment_00042.mp4"), Some(42));
    assert_eq!(read_segment_index("segment_123456.mp4"), Some(123456));
    assert_eq!(read_segment_index("segment_+7.mp4"), Some(7));
    assert_eq!(read_segment_index("segment_4294967295.mp4"), Some(u32::MAX));
    assert_eq!(read_segment_index("segment_4294967296.mp4"), None);
    assert_eq!(read_segment_index("segment_-1.mp4"), None);
    assert_eq!(read_segment_index("segment_.mp4"), None);
    assert_eq!(read_segment_index("segment_+.mp4"), None);
    assert_eq!(read_segment_index("segment_1.2.mp4"), None);
    assert_eq!(read_segment_index("segment_1.MP4"), None);
    assert_eq!(read_segment_index("segment_1"), None);
    assert_eq!(read_segment_index("Segment_1.mp4"), None);
    assert_eq!(read_segment_index(".mp4"), None);
    assert_eq!(read_segment_index("concat_list.txt"), None);
    assert_eq!(read_segment_index(""), None);
}

#[test]
fn listing_sorts_by_number_and_keeps_ties() {
    let found = names(&[
        "segment_00010.mp4",
        "segment_2.mp4",
        "concat_list.txt",
        "segment_00002.mp4",
        "segment_00001.mp4",
    ]);
    let listed = list_segments(&found);
    let expected: Vec<(u32, String)> = vec![
        (1, "segment_00001.mp4".to_string()),
        (2, "segment_2.mp4".to_string()),
        (2, "segment_00002.mp4".to_string()),
        (10, "segment_00010.mp4".to_string()),
    ];
    assert_eq!(listed, expected);
    assert_eq!(first_index(&listed), 1);
    assert_eq!(first_index(&list_segments(&Vec::new())), 0);
}

#[test]
fn pruning_deletes_the_oldest() {
    let listed = list_segments(&names(&["segment_3.mp4", "segment_1.mp4", "segment_2.mp4"]));
    assert_eq!(prune_old_segments(&listed, 3), Vec::<String>::new());
    assert_eq!(prune_old_segments(&listed, 4), Vec::<String>::new());
    assert_eq!(prune_old_segments(&listed, 1), names(&["segment_1.mp4", "segment_2.mp4"]));
    // The newest segment is still being written and stays in any case.
    assert_eq!(prune_old_segments(&listed, 0), names(&["segment_1.mp4", "segment_2.mp4"]));
    let two = list_segments(&names(&["segment_00000.mp4", "segment_00001.mp4"]));
    assert_eq!(prune_old_segments(&two, 0), names(&["segment_00000.mp4"]));
    assert!(prune_old_segments(&Vec::new(), 0).is_empty());
}

#[test]
fn pruning_leaves_the_newest_and_nothing_more_to_prune() {
    let dir = names(&["segment_7.mp4", "notes.txt", "segment_5.mp4", "segment_6.mp4"]);
    let old = list_segments(&dir);
    let gone = prune_old_segments(&old, 2);
    assert_eq!(gone, names(&["segment_5.mp4"]));
    let left: Vec<String> = dir.into_iter().filter(|n| !gone.contains(n)).collect();
    assert!(left.contains(&"notes.txt".to_string()));
    let listed = list_segments(&left);
    assert_eq!(listed, old[1..].to_vec());
    assert!(prune_old_segments(&listed, 2).is_empty());
}

#[test]
fn the_kept_footage_begins_at_a_segment_boundary() {
    let first = Moment { nanos: 5_000 };
    let start = video_start(first, 7, 3);
    assert_eq!(start.nanos, 21_000_005_000);
    assert_eq!(due_slots(first, 30, start), 7 * 3 * 30);
    assert_eq!(video_start(first, 0, 3), first);
}

#[test]
fn a_video_needs_a_merged_segment() {
    let start = Moment { nanos: 9 };
    let done = finalize_video(start, Ok(2), "v.mp4".to_string()).unwrap();
    assert_eq!(done.path, "v.mp4");
    assert_eq!(done.start, start);
    assert!(finalize_video(start, Ok(0), "v.mp4".to_string()).is_none());
    assert!(finalize_video(start, Err("x".to_string()), "v.mp4".to_string()).is_none());
}

#[test]
fn concat_lists_use_forward_slashes() {
    let paths = names(&["C:\\rec\\segment_00001.mp4", "/rec/segment_00002.mp4"]);
    let job = concat_segments(&paths, "list.txt", "out.mp4").unwrap();
    assert_eq!(job.list, "file 'C:/rec/segment_00001.mp4'\nfile '/rec/segment_00002.mp4'\n");
    assert_eq!(
        job.args,
        names(&[
            "-y", "-f", "concat", "-safe", "0", "-i", "list.txt", "-c", "copy", "-movflags",
            "+faststart", "out.mp4"
        ])
    );
    assert!(concat_segments(&Vec::new(), "list.txt", "out.mp4").is_none());
}

#[test]
fn failures_quote_the_last_line() {
    assert_eq!(concat_outcome(3, true, "exit status: 0", "noise"), Ok(3));
    assert_eq!(
        concat_outcome(3, false, "exit status: 1", "first\nlast line\r\n"),
        Err("ffmpeg concat failed (exit status: 1): last line".to_string())
    );
    assert_eq!(
        mux_outcome(false, "exit status: 1", ""),
        Err("ffmpeg mux failed (exit status: 1): unknown error".to_string())
    );
    assert_eq!(mux_outcome(true, "", "anything"), Ok(()));
}

#[test]
fn ffmpeg_arguments() {
    let args = segmenter_args(1920, 1080, 30, 3, "dir/segment_%05d.mp4");
    assert_eq!(args[8], "1920x1080");
    assert_eq!(args[10], "30");
    assert_eq!(args[26], "expr:gte(t,n_forced*3)");
    assert_eq!(args[30], "3");
    assert_eq!(args[35], "dir/segment_%05d.mp4");
    assert_eq!(args.len(), 36);
    let mux = mux_args("v.mp4", "v.wav", "out.mp4");
    assert_eq!(mux.len(), 19);
    assert_eq!((mux[2].as_str(), mux[4].as_str(), mux[18].as_str()), ("v.mp4", "v.wav", "out.mp4"));
    assert_eq!(segments_dir_name("20240102_030405"), ".segments_20240102_030405");
    assert_eq!(video_only_name("20240102_030405"), ".video_20240102_030405.mp4");
    assert_eq!(segment_pattern(), "segment_%05d.mp4");
}
