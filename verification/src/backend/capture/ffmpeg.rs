//! What FFmpeg is asked to do, as argument lists and input files, and what its exit means.

use vstd::prelude::*;

use crate::backend::capture::encoder::FrameChunk;
use crate::backend::capture::segments;
use crate::backend::capture::segments::SegmentPlan;
use crate::util::clock;
use crate::util::clock::local_stamp;
use crate::util::text;
use crate::util::text::{append_decimal, last_line, push_text, substitute_chars};

verus! {

/// The name of the directory that holds the segments of a recording started at `stamp`.
pub fn segments_dir_name(stamp: &str) -> (name: String)
    ensures
        name@ == ".segments_"@ + stamp@,
{
    let mut name = ".segments_".to_owned();
    name.append(stamp);
    name
}

/// The name of the video-only file of a recording started at `stamp`.
pub fn video_only_name(stamp: &str) -> (name: String)
    ensures
        name@ == ".video_"@ + stamp@ + ".mp4"@,
{
    let mut name = ".video_".to_owned();
    name.append(stamp);
    name.append(".mp4");
    name
}

/// The pattern of segment file names, relative to their directory.
pub fn segment_pattern() -> (name: &'static str)
    ensures
        name@ == "segment_%05d.mp4"@,
{
    "segment_%05d.mp4"
}

/// The frame size as FFmpeg reads it.
pub open spec fn size_text(width: u32, height: u32) -> Seq<char> {
    text::decimal(width as nat) + "x"@ + text::decimal(height as nat)
}

/// The expression that forces a key frame at every segment boundary.
pub open spec fn key_frame_text(segment_seconds: u32) -> Seq<char> {
    "expr:gte(t,n_forced*"@ + text::decimal(segment_seconds as nat) + ")"@
}

/// The arguments that make FFmpeg read raw RGBA frames from its standard input at a constant
/// frame rate and cut them into segments that are independently decodable.
pub open spec fn segmenter_args_of(
    width: u32,
    height: u32,
    fps: u32,
    segment_seconds: u32,
    pattern: Seq<char>,
) -> Seq<Seq<char>> {
    seq![
        "-y"@,
        "-f"@,
        "rawvideo"@,
        "-vcodec"@,
        "rawvideo"@,
        "-pix_fmt"@,
        "rgba"@,
        "-s"@,
        size_text(width, height),
        "-r"@,
        text::decimal(fps as nat),
        "-thread_queue_size"@,
        "512"@,
        "-i"@,
        "-"@,
        "-c:v"@,
        "libx264"@,
        "-pix_fmt"@,
        "yuv420p"@,
        "-preset"@,
        "ultrafast"@,
        "-tune"@,
        "zerolatency"@,
        "-crf"@,
        "23"@,
        "-force_key_frames"@,
        key_frame_text(segment_seconds),
        "-f"@,
        "segment"@,
        "-segment_time"@,
        text::decimal(segment_seconds as nat),
        "-segment_format"@,
        "mp4"@,
        "-reset_timestamps"@,
        "1"@,
        pattern,
    ]
}

/// The arguments for the segmenting FFmpeg.
pub fn segmenter_args(width: u32, height: u32, fps: u32, segment_seconds: u32, pattern: &str) -> (args:
    Vec<String>)
    ensures
        text::texts(args@) == segmenter_args_of(width, height, fps, segment_seconds, pattern@),
{
    let mut size = String::new();
    append_decimal(&mut size, width as u64);
    size.append("x");
    append_decimal(&mut size, height as u64);
    assert(size@ =~= size_text(width, height));
    let mut rate = String::new();
    append_decimal(&mut rate, fps as u64);
    assert(rate@ =~= text::decimal(fps as nat));
    let mut key_frames = "expr:gte(t,n_forced*".to_owned();
    append_decimal(&mut key_frames, segment_seconds as u64);
    key_frames.append(")");
    let mut segment_time = String::new();
    append_decimal(&mut segment_time, segment_seconds as u64);
    assert(segment_time@ =~= text::decimal(segment_seconds as nat));

    let mut args: Vec<String> = Vec::new();
    push_text(&mut args, "-y");
    push_text(&mut args, "-f");
    push_text(&mut args, "rawvideo");
    push_text(&mut args, "-vcodec");
    push_text(&mut args, "rawvideo");
    push_text(&mut args, "-pix_fmt");
    push_text(&mut args, "rgba");
    push_text(&mut args, "-s");
    push_text(&mut args, size.as_str());
    push_text(&mut args, "-r");
    push_text(&mut args, rate.as_str());
    push_text(&mut args, "-thread_queue_size");
    push_text(&mut args, "512");
    push_text(&mut args, "-i");
    push_text(&mut args, "-");
    push_text(&mut args, "-c:v");
    push_text(&mut args, "libx264");
    push_text(&mut args, "-pix_fmt");
    push_text(&mut args, "yuv420p");
    push_text(&mut args, "-preset");
    push_text(&mut args, "ultrafast");
    push_text(&mut args, "-tune");
    push_text(&mut args, "zerolatency");
    push_text(&mut args, "-crf");
    push_text(&mut args, "23");
    push_text(&mut args, "-force_key_frames");
    push_text(&mut args, key_frames.as_str());
    push_text(&mut args, "-f");
    push_text(&mut args, "segment");
    push_text(&mut args, "-segment_time");
    push_text(&mut args, segment_time.as_str());
    push_text(&mut args, "-segment_format");
    push_text(&mut args, "mp4");
    push_text(&mut args, "-reset_timestamps");
    push_text(&mut args, "1");
    push_text(&mut args, pattern);
    assert(text::texts(args@) =~= segmenter_args_of(width, height, fps, segment_seconds, pattern@));
    args
}

/// What the video of a recording is encoded with.
pub struct EncodePlan {
    /// How the footage is cut.
    pub segments: SegmentPlan,
    /// Name of the directory that holds the segments.
    pub segments_dir: String,
    /// Name of the file that the segments are joined into.
    pub video_only: String,
    pub width: u32,
    pub height: u32,
    pub fps: u32,
}

impl EncodePlan {
    /// The plan for a recording of `duration_secs` seconds that starts at `stamp`. The first
    /// frame gives the dimensions.
    pub open spec fn is_for(
        &self,
        first_frame: FrameChunk,
        fps: u32,
        duration_secs: u32,
        stamp: Seq<char>,
    ) -> bool {
        &&& self.segments.segment_seconds == segments::segment_length(duration_secs)
        &&& self.segments.keep_segments == segments::segments_kept(duration_secs)
        &&& self.segments_dir@ == ".segments_"@ + stamp
        &&& self.video_only@ == ".video_"@ + stamp + ".mp4"@
        &&& self.width == first_frame.width
        &&& self.height == first_frame.height
        &&& self.fps == fps
    }

    /// The plan for a recording that starts at `stamp`.
    pub fn new(first_frame: &FrameChunk, fps: u32, duration_secs: u32, stamp: &str) -> (plan:
        EncodePlan)
        ensures
            plan.is_for(*first_frame, fps, duration_secs, stamp@),
    {
        EncodePlan {
            segments: SegmentPlan::new(duration_secs),
            segments_dir: segments_dir_name(stamp),
            video_only: video_only_name(stamp),
            width: first_frame.width,
            height: first_frame.height,
            fps,
        }
    }

    /// The plan for a recording that starts now.
    pub fn starting_now(first_frame: &FrameChunk, fps: u32, duration_secs: u32) -> (plan: EncodePlan)
        ensures
            exists|stamp: Seq<char>| #[trigger]
                clock::is_stamp(stamp) && plan.is_for(*first_frame, fps, duration_secs, stamp),
    {
        let stamp = local_stamp();
        EncodePlan::new(first_frame, fps, duration_secs, stamp.as_str())
    }

    /// The arguments for the segmenting FFmpeg, which writes to files that `pattern` names.
    pub fn args(&self, pattern: &str) -> (args: Vec<String>)
        ensures
            text::texts(args@) == segmenter_args_of(
                self.width,
                self.height,
                self.fps,
                self.segments.segment_seconds,
                pattern@,
            ),
    {
        segmenter_args(self.width, self.height, self.fps, self.segments.segment_seconds, pattern)
    }
}

/// The arguments that merge a video and an audio file that start at the same instant: the
/// video is copied, the audio encoded, and the shorter of the two ends the file.
pub open spec fn mux_args_of(video: Seq<char>, wav: Seq<char>, output: Seq<char>) -> Seq<Seq<char>> {
    seq![
        "-y"@,
        "-i"@,
        video,
        "-i"@,
        wav,
        "-map"@,
        "0:v:0"@,
        "-map"@,
        "1:a:0"@,
        "-c:v"@,
        "copy"@,
        "-c:a"@,
        "aac"@,
        "-b:a"@,
        "192k"@,
        "-shortest"@,
        "-movflags"@,
        "+faststart"@,
        output,
    ]
}

/// The arguments for merging the audio into the video.
pub fn mux_args(video: &str, wav: &str, output: &str) -> (args: Vec<String>)
    ensures
        text::texts(args@) == mux_args_of(video@, wav@, output@),
{
    let mut args: Vec<String> = Vec::new();
    push_text(&mut args, "-y");
    push_text(&mut args, "-i");
    push_text(&mut args, video);
    push_text(&mut args, "-i");
    push_text(&mut args, wav);
    push_text(&mut args, "-map");
    push_text(&mut args, "0:v:0");
    push_text(&mut args, "-map");
    push_text(&mut args, "1:a:0");
    push_text(&mut args, "-c:v");
    push_text(&mut args, "copy");
    push_text(&mut args, "-c:a");
    push_text(&mut args, "aac");
    push_text(&mut args, "-b:a");
    push_text(&mut args, "192k");
    push_text(&mut args, "-shortest");
    push_text(&mut args, "-movflags");
    push_text(&mut args, "+faststart");
    push_text(&mut args, output);
    assert(text::texts(args@) =~= mux_args_of(video@, wav@, output@));
    args
}

/// The arguments that join the files of a list without encoding them again.
pub open spec fn concat_args_of(list: Seq<char>, output: Seq<char>) -> Seq<Seq<char>> {
    seq![
        "-y"@,
        "-f"@,
        "concat"@,
        "-safe"@,
        "0"@,
        "-i"@,
        list,
        "-c"@,
        "copy"@,
        "-movflags"@,
        "+faststart"@,
        output,
    ]
}

fn concat_args(list: &str, output: &str) -> (args: Vec<String>)
    ensures
        text::texts(args@) == concat_args_of(list@, output@),
{
    let mut args: Vec<String> = Vec::new();
    push_text(&mut args, "-y");
    push_text(&mut args, "-f");
    push_text(&mut args, "concat");
    push_text(&mut args, "-safe");
    push_text(&mut args, "0");
    push_text(&mut args, "-i");
    push_text(&mut args, list);
    push_text(&mut args, "-c");
    push_text(&mut args, "copy");
    push_text(&mut args, "-movflags");
    push_text(&mut args, "+faststart");
    push_text(&mut args, output);
    assert(text::texts(args@) =~= concat_args_of(list@, output@));
    args
}

/// The line of a concat list that names a file, with forward slashes.
pub open spec fn concat_line(path: Seq<char>) -> Seq<char> {
    "file '"@ + text::substituted(path, seq!['\\'], '/') + "'\n"@
}

/// The concat list that names the files `paths` in their order.
pub open spec fn concat_list_of(paths: Seq<Seq<char>>) -> Seq<char>
    decreases paths.len(),
{
    if paths.len() == 0 {
        Seq::empty()
    } else {
        concat_list_of(paths.drop_last()) + concat_line(paths.last())
    }
}

fn concat_list(paths: &Vec<String>) -> (list: String)
    ensures
        list@ == concat_list_of(text::texts(paths@)),
{
    let mut unwanted: Vec<char> = Vec::new();
    unwanted.push('\\');
    assert(unwanted@ =~= seq!['\\']);
    let mut list = String::new();
    let mut i: usize = 0;
    while i < paths.len()
        invariant
            i <= paths.len(),
            unwanted@ == seq!['\\'],
            list@ == concat_list_of(text::texts(paths@).take(i as int)),
        decreases paths.len() - i,
    {
        let ghost before = list@;
        let path = substitute_chars(paths[i].as_str(), &unwanted, '/');
        list.append("file '");
        list.append(path.as_str());
        list.append("'\n");
        i += 1;
        assert(list@ =~= before + concat_line(text::texts(paths@)[i - 1]));
        assert(text::texts(paths@).take(i as int).drop_last() =~= text::texts(paths@).take(i - 1));
    }
    assert(text::texts(paths@).take(i as int) =~= text::texts(paths@));
    list
}

/// The work of joining segments.
pub struct ConcatJob {
    /// Contents of the list file.
    pub list: String,
    /// FFmpeg's arguments.
    pub args: Vec<String>,
}

/// Prepares joining the segments at the absolute paths `paths`, in that order, into
/// `output`; `list_path` is where the list file will stand. Without segments there is no
/// work.
pub fn concat_segments(paths: &Vec<String>, list_path: &str, output: &str) -> (job: Option<ConcatJob>)
    ensures
        job is None <==> paths@.len() == 0,
        job matches Some(j) ==> j.list@ == concat_list_of(text::texts(paths@)) && text::texts(
            j.args@,
        ) == concat_args_of(list_path@, output@),
{
    if paths.len() == 0 {
        None
    } else {
        Some(ConcatJob { list: concat_list(paths), args: concat_args(list_path, output) })
    }
}

/// What is said of an FFmpeg run that failed: its task, its exit status, and the last line
/// that it wrote.
pub open spec fn failure_text(task: Seq<char>, status: Seq<char>, stderr: Seq<char>) -> Seq<char> {
    let reason = match text::last_line_of(stderr) {
        Some(line) => line,
        None => "unknown error"@,
    };
    "ffmpeg "@ + task + " failed ("@ + status + "): "@ + reason
}

fn failure(task: &str, status: &str, stderr: &str) -> (message: String)
    ensures
        message@ == failure_text(task@, status@, stderr@),
{
    let reason = match last_line(stderr) {
        Some(line) => line,
        None => "unknown error".to_owned(),
    };
    let mut message = "ffmpeg ".to_owned();
    message.append(task);
    message.append(" failed (");
    message.append(status);
    message.append("): ");
    message.append(reason.as_str());
    message
}

/// How many segments were merged: all `count` of them if FFmpeg succeeded.
pub fn concat_outcome(count: usize, success: bool, status: &str, stderr: &str) -> (merged: Result<
    usize,
    String,
>)
    ensures
        success ==> merged == Ok::<usize, String>(count),
        !success ==> (merged matches Err(e) && e@ == failure_text("concat"@, status@, stderr@)),
{
    if success {
        Ok(count)
    } else {
        Err(failure("concat", status, stderr))
    }
}

/// Whether the audio was merged into the video.
pub fn mux_outcome(success: bool, status: &str, stderr: &str) -> (muxed: Result<(), String>)
    ensures
        success ==> muxed is Ok,
        !success ==> (muxed matches Err(e) && e@ == failure_text("mux"@, status@, stderr@)),
{
    if success {
        Ok(())
    } else {
        Err(failure("mux", status, stderr))
    }
}

/// Among the arguments from `from` to `to`, `flag` stands with `value` behind it.
pub open spec fn given(
    args: Seq<Seq<char>>,
    flag: Seq<char>,
    value: Seq<char>,
    from: int,
    to: int,
) -> bool {
    exists|i: int| from <= i && i + 1 < to && #[trigger] args[i] == flag && args[i + 1] == value
}

/// `flag` stands at the places `a` and `b` and nowhere else.
pub open spec fn stands_twice(args: Seq<Seq<char>>, flag: Seq<char>, a: int, b: int) -> bool {
    &&& 0 <= a < b < args.len()
    &&& forall|k: int|
        0 <= k < args.len() ==> (#[trigger] args[k] == flag <==> k == a || k == b)
}

/// FFmpeg takes a text for a file and not for an option.
pub open spec fn names_a_file(text: Seq<char>) -> bool {
    text.len() > 0 && text[0] != '-'
}

/// The merged file takes its picture from the video and its sound from the WAV file: of the two
/// inputs the first is the video and the second the WAV file, and of the two streams that are
/// mapped, each once, one is the picture of the first input and the other the sound of the second.
/// The picture is copied and the sound encoded; the shorter of the two ends the file.
pub proof fn lemma_mux_takes_picture_and_sound(
    video: Seq<char>,
    wav: Seq<char>,
    output: Seq<char>,
)
    requires
        names_a_file(video),
        names_a_file(wav),
        names_a_file(output),
    ensures
        ({
            let args = mux_args_of(video, wav, output);
            let n = args.len() as int;
            &&& exists|a: int, b: int| #[trigger]
                stands_twice(args, "-i"@, a, b) && args[a + 1] == video && args[b + 1] == wav
            &&& exists|a: int, b: int| #[trigger]
                stands_twice(args, "-map"@, a, b) && args[a + 1] == text::decimal(0) + ":v:0"@
                    && args[b + 1] == text::decimal(1) + ":a:0"@
            &&& given(args, "-c:v"@, "copy"@, 0, n - 1)
            &&& given(args, "-c:a"@, "aac"@, 0, n - 1)
            &&& given(args, "-b:a"@, "192k"@, 0, n - 1)
            &&& given(args, "-movflags"@, "+faststart"@, 0, n - 1)
            &&& args.contains("-shortest"@)
            &&& args[0] == "-y"@
            &&& args.last() == output
        }),
{
    let args = mux_args_of(video, wav, output);
    reveal_strlit("-y");
    reveal_strlit("-i");
    reveal_strlit("-map");
    reveal_strlit("0:v:0");
    reveal_strlit("1:a:0");
    reveal_strlit(":v:0");
    reveal_strlit(":a:0");
    reveal_strlit("-c:v");
    reveal_strlit("copy");
    reveal_strlit("-c:a");
    reveal_strlit("aac");
    reveal_strlit("-b:a");
    reveal_strlit("192k");
    reveal_strlit("-shortest");
    reveal_strlit("-movflags");
    reveal_strlit("+faststart");
    assert(args.len() == 19);
    assert(args[1] == "-i"@ && args[2] == video && args[3] == "-i"@ && args[4] == wav);
    assert(stands_twice(args, "-i"@, 1, 3)) by {
        assert forall|k: int| 0 <= k < args.len() implies (#[trigger] args[k] == "-i"@ <==> k == 1
            || k == 3) by {
            lemma_mux_arg(video, wav, output, k);
        }
    }
    assert(args[5] == "-map"@ && args[7] == "-map"@);
    assert(args[6] =~= text::decimal(0) + ":v:0"@);
    assert(args[8] =~= text::decimal(1) + ":a:0"@);
    assert(stands_twice(args, "-map"@, 5, 7)) by {
        assert forall|k: int| 0 <= k < args.len() implies (#[trigger] args[k] == "-map"@ <==> k == 5
            || k == 7) by {
            lemma_mux_arg(video, wav, output, k);
        }
    }
    assert(args[9] == "-c:v"@ && args[10] == "copy"@);
    assert(args[11] == "-c:a"@ && args[12] == "aac"@);
    assert(args[13] == "-b:a"@ && args[14] == "192k"@);
    assert(args[15] == "-shortest"@);
    assert(args[16] == "-movflags"@ && args[17] == "+faststart"@);
}

proof fn lemma_mux_arg(video: Seq<char>, wav: Seq<char>, output: Seq<char>, k: int)
    requires
        names_a_file(video),
        names_a_file(wav),
        names_a_file(output),
        0 <= k < 19,
    ensures
        mux_args_of(video, wav, output)[k] == "-i"@ <==> k == 1 || k == 3,
        mux_args_of(video, wav, output)[k] == "-map"@ <==> k == 5 || k == 7,
{
    let args = mux_args_of(video, wav, output);
    reveal_strlit("-y");
    reveal_strlit("-i");
    reveal_strlit("-map");
    reveal_strlit("0:v:0");
    reveal_strlit("1:a:0");
    reveal_strlit("-c:v");
    reveal_strlit("copy");
    reveal_strlit("-c:a");
    reveal_strlit("aac");
    reveal_strlit("-b:a");
    reveal_strlit("192k");
    reveal_strlit("-shortest");
    reveal_strlit("-movflags");
    reveal_strlit("+faststart");
    let arg = args[k];
    if k == 1 || k == 3 {
        assert(arg == "-i"@);
        assert(arg.len() != "-map"@.len());
    } else if k == 5 || k == 7 {
        assert(arg == "-map"@);
        assert(arg.len() != "-i"@.len());
    } else if k == 2 {
        assert(arg == video && "-i"@[0] == '-' && "-map"@[0] == '-');
    } else if k == 4 {
        assert(arg == wav && "-i"@[0] == '-' && "-map"@[0] == '-');
    } else if k == 18 {
        assert(arg == output && "-i"@[0] == '-' && "-map"@[0] == '-');
    } else if k == 0 {
        assert(arg[1] == 'y' && "-i"@[1] == 'i' && "-map"@[1] == 'm');
    } else if k == 9 || k == 11 || k == 13 {
        assert(arg.len() == 4 && arg[1] != 'm' && "-i"@.len() == 2 && "-map"@[1] == 'm');
    } else if k == 10 || k == 14 {
        assert(arg.len() == 4 && arg[0] != '-' && "-i"@.len() == 2 && "-map"@[0] == '-');
    } else {
        assert(arg.len() != 4 && arg.len() != 2 && "-i"@.len() == 2 && "-map"@.len() == 4);
    }
}

/// Raw frames come in by the standard input, in the size and at the rate of the recording, and
/// H.264 goes out in segments that last `segment_seconds`, with a key frame at the beginning of
/// each, into the files of the pattern. What says how the input is to be read stands before it,
/// and what says how to encode behind it.
pub proof fn lemma_segmenter_cuts_the_input(
    width: u32,
    height: u32,
    fps: u32,
    segment_seconds: u32,
    pattern: Seq<char>,
)
    ensures
        ({
            let args = segmenter_args_of(width, height, fps, segment_seconds, pattern);
            let n = args.len() as int;
            &&& exists|input: int|
                {
                    &&& 0 <= input < n - 1 && #[trigger] args[input] == "-i"@ && args[input + 1]
                        == "-"@
                    &&& given(args, "-f"@, "rawvideo"@, 0, input)
                    &&& given(args, "-vcodec"@, "rawvideo"@, 0, input)
                    &&& given(args, "-pix_fmt"@, "rgba"@, 0, input)
                    &&& given(
                        args,
                        "-s"@,
                        text::decimal(width as nat) + "x"@ + text::decimal(height as nat),
                        0,
                        input,
                    )
                    &&& given(args, "-r"@, text::decimal(fps as nat), 0, input)
                    &&& given(args, "-thread_queue_size"@, text::decimal(512), 0, input)
                    &&& given(args, "-c:v"@, "libx264"@, input + 2, n - 1)
                    &&& given(args, "-pix_fmt"@, "yuv420p"@, input + 2, n - 1)
                    &&& given(args, "-preset"@, "ultrafast"@, input + 2, n - 1)
                    &&& given(args, "-tune"@, "zerolatency"@, input + 2, n - 1)
                    &&& given(args, "-crf"@, text::decimal(23), input + 2, n - 1)
                    &&& given(
                        args,
                        "-force_key_frames"@,
                        "expr:gte(t,n_forced*"@ + text::decimal(segment_seconds as nat) + ")"@,
                        input + 2,
                        n - 1,
                    )
                    &&& given(args, "-f"@, "segment"@, input + 2, n - 1)
                    &&& given(
                        args,
                        "-segment_time"@,
                        text::decimal(segment_seconds as nat),
                        input + 2,
                        n - 1,
                    )
                    &&& given(args, "-segment_format"@, "mp4"@, input + 2, n - 1)
                    &&& given(args, "-reset_timestamps"@, text::decimal(1), input + 2, n - 1)
                }
            &&& args[0] == "-y"@
            &&& args.last() == pattern
            &&& n == 36
        }),
{
    let args = segmenter_args_of(width, height, fps, segment_seconds, pattern);
    reveal_strlit("512");
    reveal_strlit("23");
    reveal_strlit("1");
    reveal_with_fuel(text::decimal, 4);
    assert("512"@ =~= text::decimal(512));
    assert("23"@ =~= text::decimal(23));
    assert("1"@ =~= text::decimal(1));
    assert(args[13] == "-i"@ && args[14] == "-"@);
    assert(args[1] == "-f"@ && args[2] == "rawvideo"@);
    assert(args[3] == "-vcodec"@ && args[4] == "rawvideo"@);
    assert(args[5] == "-pix_fmt"@ && args[6] == "rgba"@);
    assert(args[7] == "-s"@ && args[8] == size_text(width, height));
    assert(args[9] == "-r"@ && args[10] == text::decimal(fps as nat));
    assert(args[11] == "-thread_queue_size"@ && args[12] == "512"@);
    assert(args[15] == "-c:v"@ && args[16] == "libx264"@);
    assert(args[17] == "-pix_fmt"@ && args[18] == "yuv420p"@);
    assert(args[19] == "-preset"@ && args[20] == "ultrafast"@);
    assert(args[21] == "-tune"@ && args[22] == "zerolatency"@);
    assert(args[23] == "-crf"@ && args[24] == "23"@);
    assert(args[25] == "-force_key_frames"@ && args[26] == key_frame_text(segment_seconds));
    assert(args[27] == "-f"@ && args[28] == "segment"@);
    assert(args[29] == "-segment_time"@ && args[30] == text::decimal(segment_seconds as nat));
    assert(args[31] == "-segment_format"@ && args[32] == "mp4"@);
    assert(args[33] == "-reset_timestamps"@ && args[34] == "1"@);
}

/// The files of the list are joined without being encoded again, into the output.
pub proof fn lemma_concat_joins_the_list(list: Seq<char>, output: Seq<char>)
    ensures
        ({
            let args = concat_args_of(list, output);
            let n = args.len() as int;
            &&& exists|input: int|
                {
                    &&& 0 <= input < n - 1 && #[trigger] args[input] == "-i"@ && args[input + 1]
                        == list
                    &&& given(args, "-f"@, "concat"@, 0, input)
                    &&& given(args, "-safe"@, "0"@, 0, input)
                    &&& given(args, "-c"@, "copy"@, input + 2, n - 1)
                    &&& given(args, "-movflags"@, "+faststart"@, input + 2, n - 1)
                }
            &&& args[0] == "-y"@
            &&& args.last() == output
            &&& n == 12
        }),
{
    let args = concat_args_of(list, output);
    assert(args[5] == "-i"@ && args[6] == list);
    assert(args[1] == "-f"@ && args[2] == "concat"@);
    assert(args[3] == "-safe"@ && args[4] == "0"@);
    assert(args[7] == "-c"@ && args[8] == "copy"@);
    assert(args[9] == "-movflags"@ && args[10] == "+faststart"@);
}

/// The list of files names them in their order: the list of two rows is that of the first and
/// behind it that of the second. The line of a file is its path between `file '` and `'`, with a
/// forward slash for every backslash and no other change.
pub proof fn lemma_list_names_the_files_in_order(
    first: Seq<Seq<char>>,
    second: Seq<Seq<char>>,
    path: Seq<char>,
)
    ensures
        concat_list_of(first + second) == concat_list_of(first) + concat_list_of(second),
        concat_list_of(Seq::empty()) == Seq::<char>::empty(),
        ({
            let line = concat_list_of(seq![path]);
            &&& line.len() == path.len() + 8
            &&& line.take(6) == "file '"@
            &&& line.skip(path.len() as int + 6) == "'\n"@
            &&& forall|i: int|
                0 <= i < path.len() ==> #[trigger] line[6 + i] == if path[i] == '\\' {
                    '/'
                } else {
                    path[i]
                }
        }),
    decreases second.len(),
{
    reveal_strlit("file '");
    reveal_strlit("'\n");
    if second.len() == 0 {
        assert(first + second =~= first);
        assert(concat_list_of(first) + concat_list_of(second) =~= concat_list_of(first));
    } else {
        lemma_list_names_the_files_in_order(first, second.drop_last(), path);
        assert((first + second).drop_last() =~= first + second.drop_last());
        assert(concat_list_of(first + second) =~= concat_list_of(first) + concat_list_of(second));
    }
    let line = concat_list_of(seq![path]);
    assert(seq![path].drop_last() =~= Seq::<Seq<char>>::empty());
    assert(seq![path].last() == path);
    reveal_with_fuel(concat_list_of, 2);
    assert(line =~= concat_line(path));
    assert(seq!['\\'].contains('\\')) by {
        assert(seq!['\\'][0] == '\\');
    }
    assert(line.take(6) =~= "file '"@);
    assert(line.skip(path.len() as int + 6) =~= "'\n"@);
}

/// A failed run is told by its task, its exit status and the last line that it wrote: without a
/// line the error is unknown, a single line is told as it is, and what stands before the last
/// line does not matter.
pub proof fn lemma_failures_tell_the_last_line(
    task: Seq<char>,
    status: Seq<char>,
    before: Seq<char>,
    line: Seq<char>,
)
    requires
        line.len() > 0,
        forall|i: int| 0 <= i < line.len() ==> #[trigger] line[i] != '\n',
    ensures
        failure_text(task, status, Seq::empty()) == "ffmpeg "@ + task + " failed ("@ + status
            + "): "@ + "unknown error"@,
        failure_text(task, status, line) == "ffmpeg "@ + task + " failed ("@ + status + "): "@
            + line,
        failure_text(task, status, before + seq!['\n'] + line) == failure_text(task, status, line),
{
    text::lemma_last_line_is_the_rest(Seq::empty(), line);
    text::lemma_last_line_is_the_rest(before + seq!['\n'], line);
    assert(Seq::<char>::empty() + line =~= line);
}

/// The plan of a recording has the dimensions of its first frame, the rate that is asked for, and
/// segments that cover what is to be kept; its files carry the time at which it starts.
pub proof fn lemma_plan_follows_the_recording(
    plan: EncodePlan,
    first_frame: FrameChunk,
    fps: u32,
    duration_secs: u32,
    stamp: Seq<char>,
)
    requires
        plan.is_for(first_frame, fps, duration_secs, stamp),
    ensures
        plan.width == first_frame.width,
        plan.height == first_frame.height,
        plan.fps == fps,
        (plan.segments.keep_segments - 1) * plan.segments.segment_seconds >= duration_secs,
        plan.segments.keep_segments >= 1,
        plan.segments.segment_seconds >= 1,
        plan.segments_dir@ == ".segments_"@ + stamp,
        plan.video_only@ == ".video_"@ + stamp + ".mp4"@,
{
    segments::lemma_window_is_covered(duration_secs);
}

} // verus!
