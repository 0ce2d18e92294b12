//! Captured audio: its alignment to the video, its WAV form, and where it comes from.
//!
//! A track carries the wall-clock time of its *first* sample. Both streams are anchored to
//! the same monotonic clock, so the offset between their origins is either padded with
//! silence (audio started late) or trimmed away (audio started early), in the sample domain.

use vstd::prelude::*;

use crate::util::clock::{Moment, NANOS_PER_SEC};
use crate::util::double::{count_nanos, count_units};
use crate::util::{clock, double, text};

verus! {

/// Which loopback source the recorder uses.
#[derive(Debug, Clone, Copy, PartialEq, Eq, Structural)]
pub enum AudioSource {
    /// Capture only the target process tree.
    Process(u32),
    /// Capture everything the default render endpoint plays (minus ourselves).
    System,
}

/// Captured PCM plus the wall-clock time of its first sample.
pub struct AudioTrack {
    /// Interleaved signed 16-bit samples.
    pub samples: Vec<i16>,
    pub sample_rate: u32,
    pub channels: u16,
    /// Wall-clock moment that `samples[0]` corresponds to.
    pub start: Moment,
}

/// Frames in `samples` samples of interleaved audio; none without channels.
pub open spec fn frames_in(samples: nat, channels: nat) -> nat {
    if channels == 0 {
        0
    } else {
        samples / channels
    }
}

/// The playing time of `frames` frames in nanoseconds.
pub open spec fn playing_time(frames: nat, sample_rate: nat) -> nat {
    double::nanos_of(frames, sample_rate)
}

/// The frames that a time lasts, at most as many as a signed 64-bit number counts.
pub open spec fn frames_lasting(nanos: nat, rate: nat) -> nat {
    let frames = double::whole_units(nanos, rate);
    if frames > i64::MAX {
        i64::MAX as nat
    } else {
        frames
    }
}

/// Offset of an audio origin relative to a video origin, in frames: positive where the audio
/// starts late.
pub open spec fn offset_frames(start: Moment, video_start: Moment, rate: nat) -> int {
    if start.nanos >= video_start.nanos {
        frames_lasting(start.since(video_start), rate) as int
    } else {
        -(frames_lasting(video_start.since(start), rate) as int)
    }
}

/// `samples` shifted by `offset` frames: led in by silence, or cut at the front.
pub open spec fn aligned(samples: Seq<i16>, channels: nat, offset: int) -> Seq<i16> {
    if offset >= 0 {
        text::repeated(0i16, (offset * channels) as nat) + samples
    } else if -offset * channels >= samples.len() {
        Seq::empty()
    } else {
        samples.skip(-offset * channels)
    }
}

/// The two bytes of `x`, low byte first.
pub open spec fn le16(x: u16) -> Seq<u8> {
    seq![(x % 256) as u8, (x / 256) as u8]
}

/// The four bytes of `x`, low byte first.
pub open spec fn le32(x: u32) -> Seq<u8> {
    seq![
        (x % 256) as u8,
        (x / 256 % 256) as u8,
        (x / 65536 % 256) as u8,
        (x / 16777216) as u8,
    ]
}

/// The sixteen bits of a sample, read as a number.
pub open spec fn sample_bits(s: i16) -> u16 {
    if s >= 0 {
        s as u16
    } else {
        (s + 65536) as u16
    }
}

/// Samples as bytes, each low byte first.
pub open spec fn pcm(samples: Seq<i16>) -> Seq<u8> {
    Seq::new(
        2 * samples.len(),
        |i: int| le16(sample_bits(samples[i / 2]))[i % 2],
    )
}

/// The header of a 16-bit PCM WAV file whose samples take `data_bytes` bytes.
pub open spec fn wav_header(sample_rate: u32, channels: u16, data_bytes: u32) -> Seq<u8> {
    seq![82u8, 73, 70, 70] + le32((36 + data_bytes) as u32) + seq![87u8, 65, 86, 69] + seq![
        102u8,
        109,
        116,
        32,
    ] + le32(16) + le16(1) + le16(channels) + le32(sample_rate) + le32(
        (sample_rate * channels * 2) as u32,
    ) + le16((channels * 2) as u16) + le16(16) + seq![100u8, 97, 116, 97] + le32(data_bytes)
}

/// The numbers in the header of a WAV file fit their fields.
pub open spec fn header_fits(sample_rate: u32, channels: u16, data_bytes: u32) -> bool {
    &&& sample_rate * channels * 2 <= u32::MAX
    &&& channels * 2 <= u16::MAX
    &&& 36 + data_bytes <= u32::MAX
}

/// The size that the header of a WAV file gives for `samples` samples.
pub open spec fn data_size(samples: nat) -> u32 {
    ((2 * samples) % 0x1_0000_0000) as u32
}

/// A 16-bit PCM WAV file.
pub open spec fn wav_file(sample_rate: u32, channels: u16, samples: Seq<i16>) -> Seq<u8> {
    wav_header(sample_rate, channels, data_size(samples.len())) + pcm(samples)
}

fn push_le16(w: &mut Vec<u8>, x: u16)
    ensures
        final(w)@ == old(w)@ + le16(x),
{
    w.push((x % 256) as u8);
    w.push((x / 256) as u8);
    assert(w@ =~= old(w)@ + le16(x));
}

fn push_le32(w: &mut Vec<u8>, x: u32)
    ensures
        final(w)@ == old(w)@ + le32(x),
{
    w.push((x % 256) as u8);
    w.push((x / 256 % 256) as u8);
    w.push((x / 65536 % 256) as u8);
    w.push((x / 16777216) as u8);
    assert(w@ =~= old(w)@ + le32(x));
}

fn push_tag(w: &mut Vec<u8>, a: u8, b: u8, c: u8, d: u8)
    ensures
        final(w)@ == old(w)@ + seq![a, b, c, d],
{
    w.push(a);
    w.push(b);
    w.push(c);
    w.push(d);
    assert(w@ =~= old(w)@ + seq![a, b, c, d]);
}

/// Writes the header of a 16-bit PCM WAV file.
pub fn write_wav_header(w: &mut Vec<u8>, sample_rate: u32, channels: u16, data_bytes: u32)
    requires
        header_fits(sample_rate, channels, data_bytes),
    ensures
        final(w)@ == old(w)@ + wav_header(sample_rate, channels, data_bytes),
{
    assert(sample_rate * channels <= sample_rate * channels * 2) by (nonlinear_arith)
        requires
            sample_rate >= 0,
            channels >= 0,
    ;
    let byte_rate: u32 = sample_rate * channels as u32 * 2;
    let block_align: u16 = channels * 2;
    push_tag(w, 82, 73, 70, 70); // "RIFF"
    push_le32(w, 36 + data_bytes);
    push_tag(w, 87, 65, 86, 69); // "WAVE"
    push_tag(w, 102, 109, 116, 32); // "fmt "
    push_le32(w, 16); // PCM fmt chunk size
    push_le16(w, 1); // WAVE_FORMAT_PCM
    push_le16(w, channels);
    push_le32(w, sample_rate);
    push_le32(w, byte_rate);
    push_le16(w, block_align);
    push_le16(w, 16); // bits per sample
    push_tag(w, 100, 97, 116, 97); // "data"
    push_le32(w, data_bytes);
    assert(w@ =~= old(w)@ + wav_header(sample_rate, channels, data_bytes));
}

/// The lead silence that would align the audio is longer than the audio itself: the video
/// timeline is probably not locked to wall-clock time. Left unchecked, the real audio would
/// end up beyond the end of the video and be discarded in silence.
#[derive(Debug, Clone, Copy, PartialEq, Eq, Structural)]
pub struct TimelinesDisagree {
    pub lead_frames: u128,
    pub audio_frames: usize,
    pub sample_rate: u32,
}

fn push_silence(w: &mut Vec<u8>, samples: usize)
    ensures
        final(w)@ == old(w)@ + pcm(text::repeated(0i16, samples as nat)),
{
    let mut i: usize = 0;
    while i < samples
        invariant
            i <= samples,
            w@ == old(w)@ + pcm(text::repeated(0i16, i as nat)),
        decreases samples - i,
    {
        w.push(0);
        w.push(0);
        i += 1;
        assert(w@ =~= old(w)@ + pcm(text::repeated(0i16, i as nat)));
    }
    assert(w@ =~= old(w)@ + pcm(text::repeated(0i16, samples as nat)));
}

fn bits_of(s: i16) -> (bits: u16)
    ensures
        bits == sample_bits(s),
{
    if s >= 0 {
        s as u16
    } else {
        (s as i32 + 65536) as u16
    }
}

fn push_pcm(w: &mut Vec<u8>, samples: &Vec<i16>, from: usize)
    requires
        from <= samples.len(),
    ensures
        final(w)@ == old(w)@ + pcm(samples@.skip(from as int)),
{
    let mut i: usize = from;
    assert(w@ =~= old(w)@ + pcm(samples@.subrange(from as int, i as int)));
    while i < samples.len()
        invariant
            from <= i <= samples.len(),
            w@ == old(w)@ + pcm(samples@.subrange(from as int, i as int)),
        decreases samples.len() - i,
    {
        let ghost before = samples@.subrange(from as int, i as int);
        push_le16(w, bits_of(samples[i]));
        i += 1;
        let ghost after = samples@.subrange(from as int, i as int);
        assert(after =~= before.push(samples@[i - 1]));
        assert(pcm(after) =~= pcm(before) + le16(sample_bits(samples@[i - 1])));
        assert(w@ =~= old(w)@ + pcm(after));
    }
    assert(samples@.subrange(from as int, i as int) =~= samples@.skip(from as int));
}

proof fn lemma_pcm_concat(a: Seq<i16>, b: Seq<i16>)
    ensures
        pcm(a + b) == pcm(a) + pcm(b),
{
    assert(pcm(a + b) =~= pcm(a) + pcm(b));
}

impl AudioTrack {
    /// Whole frames in the track.
    pub open spec fn frame_count(&self) -> nat {
        frames_in(self.samples@.len(), self.channels as nat)
    }

    /// Channels that the WAV form has.
    pub open spec fn wav_channels(&self) -> nat {
        clock::at_least_one(self.channels as nat)
    }

    /// Sample rate that the WAV form has.
    pub open spec fn wav_rate(&self) -> nat {
        clock::at_least_one(self.sample_rate as nat)
    }

    /// Frames by which the track starts behind `video_start`.
    pub open spec fn offset(&self, video_start: Moment) -> int {
        offset_frames(self.start, video_start, self.wav_rate())
    }

    /// The track as it plays from `video_start` on.
    pub open spec fn aligned_to(&self, video_start: Moment) -> Seq<i16> {
        aligned(self.samples@, self.wav_channels(), self.offset(video_start))
    }

    /// The lead silence would be longer than the audio.
    pub open spec fn disagrees(&self, video_start: Moment) -> bool {
        self.offset(video_start) > self.frame_count()
    }

    /// The aligned track has a WAV form whose header can be written down.
    pub open spec fn encodable(&self, video_start: Moment) -> bool {
        let total = self.aligned_to(video_start).len();
        &&& 2 * total <= usize::MAX
        &&& header_fits(
            self.wav_rate() as u32,
            self.wav_channels() as u16,
            data_size(total),
        )
    }

    /// Whole frames in the track.
    pub fn frames(&self) -> (frames: usize)
        ensures
            frames == self.frame_count(),
    {
        if self.channels == 0 {
            0
        } else {
            self.samples.len() / self.channels as usize
        }
    }

    /// Duration of the retained audio, in nanoseconds.
    pub fn duration(&self) -> (nanos: u128)
        ensures
            nanos == playing_time(self.frame_count(), self.wav_rate()),
    {
        let frames: u64 = self.frames() as u64;
        let rate: u32 = if self.sample_rate == 0 {
            1
        } else {
            self.sample_rate
        };
        count_nanos(frames, rate)
    }

    /// Samples of silence before the audio, and samples of it that are left out.
    fn alignment(&self, video_start: Moment) -> (found: Result<(usize, usize), TimelinesDisagree>)
        ensures
            found is Err <==> self.disagrees(video_start),
            found matches Err(e) ==> e.lead_frames == self.offset(video_start) && e.audio_frames
                == self.frame_count() && e.sample_rate == self.wav_rate(),
            found matches Ok((lead, skip)) ==> lead <= self.samples@.len() && skip
                <= self.samples@.len() && self.aligned_to(video_start) == text::repeated(
                0i16,
                lead as nat,
            ) + self.samples@.skip(skip as int),
    {
        let channels: u128 = if self.channels == 0 {
            1
        } else {
            self.channels as u128
        };
        let rate: u32 = if self.sample_rate == 0 {
            1
        } else {
            self.sample_rate
        };
        let late: bool = self.start.nanos >= video_start.nanos;
        let gap: u64 = if late {
            self.start.saturating_duration_since(video_start)
        } else {
            video_start.saturating_duration_since(self.start)
        };
        let lasting: u128 = count_units(gap, rate);
        let shift: u128 = if lasting > 0x7fff_ffff_ffff_ffff {
            0x7fff_ffff_ffff_ffff
        } else {
            lasting
        };
        assert(shift * channels <= 0x7fff_ffff_ffff_ffff * 0x1_0000) by (nonlinear_arith)
            requires
                0 <= shift <= 0x7fff_ffff_ffff_ffff,
                0 <= channels <= 0x1_0000,
        ;
        if late {
            let frames: usize = self.frames();
            if shift > frames as u128 {
                return Err(
                    TimelinesDisagree {
                        lead_frames: shift,
                        audio_frames: frames,
                        sample_rate: rate,
                    },
                );
            }
            assert(shift * channels <= self.samples@.len()) by {
                if self.channels == 0 {
                    assert(shift == 0);
                } else {
                    assert(shift * channels <= self.samples@.len()) by (nonlinear_arith)
                        requires
                            0 <= shift <= self.samples@.len() / (channels as nat),
                            channels > 0,
                    ;
                }
            }
            let len: usize = self.samples.len();
            assert(shift * channels <= len);
            let lead: usize = (shift * channels) as usize;
            proof {
                let offset = self.offset(video_start);
                assert(offset == shift);
                assert(offset * self.wav_channels() == lead);
                assert(self.samples@.skip(0) =~= self.samples@);
                assert(self.aligned_to(video_start) =~= text::repeated(0i16, lead as nat)
                    + self.samples@.skip(0));
            }
            Ok((lead, 0))
        } else {
            let skip: u128 = shift * channels;
            let len: usize = self.samples.len();
            let left_out: usize = if skip >= len as u128 {
                len
            } else {
                skip as usize
            };
            proof {
                let offset = self.offset(video_start);
                assert(offset == -(shift as int));
                assert(-offset * channels == skip);
                if shift == 0 {
                    assert(0 * channels == 0);
                    assert(self.aligned_to(video_start) =~= self.samples@);
                }
                assert(self.aligned_to(video_start) =~= text::repeated(0i16, 0) + self.samples@.skip(
                    left_out as int,
                ));
            }
            Ok((0, left_out))
        }
    }

    /// Whether the aligned track has a WAV form whose header can be written down.
    pub fn is_encodable(&self, video_start: Moment) -> (fits: bool)
        ensures
            !self.disagrees(video_start) ==> fits == self.encodable(video_start),
            self.disagrees(video_start) ==> fits,
    {
        match self.alignment(video_start) {
            Err(_) => true,
            Ok((lead, skip)) => {
                let total: u128 = lead as u128 + (self.samples.len() - skip) as u128;
                let channels: u64 = if self.channels == 0 {
                    1
                } else {
                    self.channels as u64
                };
                let rate: u64 = if self.sample_rate == 0 {
                    1
                } else {
                    self.sample_rate as u64
                };
                let data_bytes: u128 = (2 * total) % 0x1_0000_0000;
                assert(self.aligned_to(video_start).len() == total);
                assert(rate * channels <= 0xffff_ffff * 0xffff) by (nonlinear_arith)
                    requires
                        0 <= rate <= 0xffff_ffff,
                        0 <= channels <= 0xffff,
                ;
                2 * total <= usize::MAX as u128 && rate * channels * 2 <= 0xffff_ffff && channels
                    * 2 <= 0xffff && 36 + data_bytes <= 0xffff_ffff
            },
        }
    }

    /// The track as a 16-bit PCM WAV file, shifted so that its first sample lines up with
    /// `video_start`.
    ///
    /// A lead silence longer than the audio itself is refused.
    pub fn write_wav_aligned(&self, video_start: Moment) -> (file: Result<
        Vec<u8>,
        TimelinesDisagree,
    >)
        requires
            self.disagrees(video_start) || self.encodable(video_start),
        ensures
            file is Err <==> self.disagrees(video_start),
            file matches Err(e) ==> e.lead_frames == self.offset(video_start) && e.audio_frames
                == self.frame_count() && e.sample_rate == self.wav_rate(),
            file matches Ok(bytes) ==> bytes@ == wav_file(
                self.wav_rate() as u32,
                self.wav_channels() as u16,
                self.aligned_to(video_start),
            ),
    {
        match self.alignment(video_start) {
            Err(e) => Err(e),
            Ok((lead, skip)) => {
                let channels: u16 = if self.channels == 0 {
                    1
                } else {
                    self.channels
                };
                let rate: u32 = if self.sample_rate == 0 {
                    1
                } else {
                    self.sample_rate
                };
                let total: usize = lead + (self.samples.len() - skip);
                let data_bytes: u32 = ((2 * total as u128) % 0x1_0000_0000) as u32;
                let mut file: Vec<u8> = Vec::new();
                write_wav_header(&mut file, rate, channels, data_bytes);
                push_silence(&mut file, lead);
                push_pcm(&mut file, &self.samples, skip);
                proof {
                    lemma_pcm_concat(
                        text::repeated(0i16, lead as nat),
                        self.samples@.skip(skip as int),
                    );
                    assert(file@ =~= wav_file(rate, channels, self.aligned_to(video_start)));
                }
                Ok(file)
            },
        }
    }
}

/// Alignment is exact to half a frame, but for five parts in 2 to the 53rd: by no more the
/// offset in frames differs from the time between the two origins.
pub proof fn lemma_alignment_is_exact_to_half_a_frame(
    start: Moment,
    video_start: Moment,
    rate: nat,
)
    requires
        -i64::MAX < offset_frames(start, video_start, rate) < i64::MAX,
    ensures
        ({
            let apart = (start.nanos - video_start.nanos) * rate;
            let shifted = offset_frames(start, video_start, rate) * NANOS_PER_SEC;
            let distance = if apart >= 0 {
                apart
            } else {
                -apart
            };
            let slack = double::BEYOND * NANOS_PER_SEC + 10 * distance;
            -slack <= double::BEYOND * (2 * shifted - 2 * apart) <= slack
        }),
{
    let late = start.nanos - video_start.nanos;
    if late >= 0 {
        double::lemma_whole_units_are_near(start.since(video_start), rate);
        assert(late * rate >= 0) by (nonlinear_arith)
            requires
                late >= 0,
                rate >= 0,
        ;
    } else {
        double::lemma_whole_units_are_near(video_start.since(start), rate);
        assert(late * rate == -((-late) * rate) && (-late) * rate >= 0) by (nonlinear_arith)
            requires
                late < 0,
                rate >= 0,
        ;
    }
}

/// Alignment moves every sample by the offset and nothing else: what lies before the video
/// is left out, what the audio does not reach is silent, and no sample changes.
pub proof fn lemma_alignment_moves_samples(samples: Seq<i16>, channels: nat, offset: int)
    requires
        channels > 0,
    ensures
        ({
            let out = aligned(samples, channels, offset);
            let by = offset * channels;
            &&& out.len() == if samples.len() + by > 0 {
                samples.len() + by
            } else {
                0
            }
            &&& forall|i: int| 0 <= i < samples.len() && 0 <= i + by ==> out[i + by] == #[trigger] samples[i]
            &&& forall|j: int| 0 <= j < by ==> #[trigger] out[j] == 0
        }),
{
    assert(-offset * channels == -(offset * channels)) by (nonlinear_arith);
    if offset >= 0 {
        assert(offset * channels >= 0) by (nonlinear_arith)
            requires
                offset >= 0,
                channels > 0,
        ;
    } else {
        assert(offset * channels < 0) by (nonlinear_arith)
            requires
                offset < 0,
                channels > 0,
        ;
    }
}

/// The sample that two bytes denote, low byte first.
pub open spec fn sample_of(low: u8, high: u8) -> int {
    let bits = low + 256 * high;
    if bits < 32768 {
        bits
    } else {
        bits - 65536
    }
}

/// A WAV file has a header of 44 bytes, and the samples can be read back from behind it.
pub proof fn lemma_wav_reads_back(sample_rate: u32, channels: u16, samples: Seq<i16>, k: int)
    requires
        0 <= k < samples.len(),
    ensures
        ({
            let file = wav_file(sample_rate, channels, samples);
            &&& file.len() == 44 + 2 * samples.len()
            &&& sample_of(file[44 + 2 * k], file[45 + 2 * k]) == samples[k]
        }),
{
    let header = wav_header(sample_rate, channels, data_size(samples.len()));
    let body = pcm(samples);
    let file = wav_file(sample_rate, channels, samples);
    assert(header.len() == 44);
    assert(file[44 + 2 * k] == body[2 * k]);
    assert(file[45 + 2 * k] == body[2 * k + 1]);
    assert((2 * k) / 2 == k && (2 * k) % 2 == 0 && (2 * k + 1) / 2 == k && (2 * k + 1) % 2 == 1);
    let bits = sample_bits(samples[k]);
    assert(le16(bits)[0] == (bits % 256) as u8);
    assert(le16(bits)[1] == (bits / 256) as u8);
}

/// The sizes in the header of a WAV file agree with the file: what follows the first eight
/// bytes, and what follows the header.
pub proof fn lemma_wav_sizes_agree(sample_rate: u32, channels: u16, samples: Seq<i16>)
    requires
        36 + 2 * samples.len() <= u32::MAX,
    ensures
        ({
            let file = wav_file(sample_rate, channels, samples);
            &&& file.subrange(4, 8) == le32((file.len() - 8) as u32)
            &&& file.subrange(40, 44) == le32((file.len() - 44) as u32)
        }),
{
    let size = data_size(samples.len());
    let header = wav_header(sample_rate, channels, size);
    let file = wav_file(sample_rate, channels, samples);
    assert(size == 2 * samples.len());
    assert(header.len() == 44);
    assert(file.len() == 44 + 2 * samples.len());
    assert(file.subrange(4, 8) =~= le32((36 + size) as u32));
    assert(file.subrange(40, 44) =~= le32(size));
}

/// Frames per second that a stream is opened with.
pub const STREAM_RATE: u32 = 48_000;

/// Channels that a stream is opened with.
pub const STREAM_CHANNELS: u16 = 2;

/// What an audio stream is opened with.
#[derive(Debug, Clone, Copy, PartialEq, Eq, Structural)]
pub struct StreamRequest {
    pub source: AudioSource,
    /// Never record our own playback back into the capture.
    pub exclude_self: bool,
    pub sample_rate: u32,
    pub channels: u16,
}

/// The search for a stream that starts: the target process first, the whole system as a
/// fallback.
pub struct StreamOpening {
    /// The process whose loopback is still to be tried.
    pub pid: Option<u32>,
    /// Why the process loopback failed.
    pub process_error: Option<String>,
}

/// The loopback of a process, or of the whole system where there is none.
pub open spec fn source_for(pid: Option<u32>) -> AudioSource {
    match pid {
        Some(p) => AudioSource::Process(p),
        None => AudioSource::System,
    }
}

/// What is said where no stream could be opened.
pub open spec fn no_stream_text(system_error: Seq<char>, process_error: Option<Seq<char>>) -> Seq<char> {
    "system loopback failed: "@ + system_error + match process_error {
        Some(e) => " (process loopback earlier failed: "@ + e + ")"@,
        None => Seq::empty(),
    }
}

/// Begins to open a stream, for the process `pid` if there is one.
pub fn open_stream(pid: Option<u32>) -> (opening: StreamOpening)
    ensures
        opening.pid == pid,
        opening.process_error is None,
{
    StreamOpening { pid, process_error: None }
}

impl StreamOpening {
    /// The source that is tried now.
    pub open spec fn source(&self) -> AudioSource {
        source_for(self.pid)
    }

    /// What is tried now.
    pub fn request(&self) -> (request: StreamRequest)
        ensures
            request.source == self.source(),
            request.exclude_self == (self.source() is System),
            request.sample_rate == STREAM_RATE,
            request.channels == STREAM_CHANNELS,
    {
        match self.pid {
            Some(pid) => StreamRequest {
                source: AudioSource::Process(pid),
                exclude_self: false,
                sample_rate: STREAM_RATE,
                channels: STREAM_CHANNELS,
            },
            None => StreamRequest {
                source: AudioSource::System,
                exclude_self: true,
                sample_rate: STREAM_RATE,
                channels: STREAM_CHANNELS,
            },
        }
    }

    /// What follows when the stream that was tried does not start: after the process the
    /// whole system is tried, after that nothing.
    pub fn failed(self, error: String) -> (next: Result<StreamOpening, String>)
        ensures
            next is Ok <==> self.pid is Some,
            next matches Ok(opening) ==> opening.pid is None && opening.process_error == Some(
                error,
            ),
            next matches Err(message) ==> message@ == no_stream_text(
                error@,
                match self.process_error {
                    Some(e) => Some(e@),
                    None => None,
                },
            ),
    {
        match self.pid {
            Some(_) => Ok(StreamOpening { pid: None, process_error: Some(error) }),
            None => {
                let mut message = "system loopback failed: ".to_owned();
                message.append(error.as_str());
                match &self.process_error {
                    Some(earlier) => {
                        message.append(" (process loopback earlier failed: ");
                        message.append(earlier.as_str());
                        message.append(")");
                    },
                    None => {},
                }
                assert(message@ =~= no_stream_text(
                    error@,
                    match self.process_error {
                        Some(e) => Some(e@),
                        None => None,
                    },
                ));
                Err(message)
            },
        }
    }
}

/// Seconds within which the capture thread has to report.
pub const START_TIMEOUT_SECS: u64 = 5;

/// What the capture thread reported within the time it is given.
pub enum StartReport {
    /// Capture runs, from this source.
    Ready(AudioSource),
    /// Capture could not be started, for this reason.
    Refused(String),
    /// The thread has not reported.
    Silent,
}

/// Why audio capture did not start.
pub struct StartError {
    pub message: String,
    /// The thread is still to be told to end.
    pub signal_thread: bool,
}

/// A running audio capture.
pub struct AudioRecorder {
    source: AudioSource,
}

/// Seconds of audio that are kept in memory: at least one.
pub fn retention_secs(keep_secs: u32) -> (secs: u32)
    ensures
        secs == clock::at_least_one(keep_secs as nat),
{
    if keep_secs == 0 {
        1
    } else {
        keep_secs
    }
}

impl AudioRecorder {
    pub closed spec fn from(&self) -> AudioSource {
        self.source
    }

    /// The recorder that a report of the capture thread gives. A thread that does not report
    /// is told to end.
    pub fn start(report: StartReport) -> (recorder: Result<AudioRecorder, StartError>)
        ensures
            recorder is Ok <==> report is Ready,
            recorder matches Ok(r) ==> report == StartReport::Ready(r.from()),
            recorder matches Err(e) ==> {
                &&& e.signal_thread == (report is Silent)
                &&& e.message@ == match report {
                    StartReport::Refused(reason) => "failed to start audio capture: "@ + reason@,
                    _ => "audio capture did not start within 5s"@,
                }
            },
    {
        match report {
            StartReport::Ready(source) => Ok(AudioRecorder { source }),
            StartReport::Refused(reason) => {
                let mut message = "failed to start audio capture: ".to_owned();
                message.append(reason.as_str());
                Err(StartError { message, signal_thread: false })
            },
            StartReport::Silent => Err(
                StartError {
                    message: "audio capture did not start within 5s".to_owned(),
                    signal_thread: true,
                },
            ),
        }
    }

    /// Where the audio comes from.
    pub fn source(&self) -> (source: AudioSource)
        ensures
            source == self.from(),
    {
        self.source
    }

    /// The audio that the capture thread left behind; none where it panicked.
    pub fn stop(self, joined: Result<Option<AudioTrack>, ()>) -> (track: Option<AudioTrack>)
        ensures
            joined matches Ok(t) ==> track == t,
            joined is Err ==> track is None,
    {
        match joined {
            Ok(track) => track,
            Err(_) => None,
        }
    }
}

/// The sources that are tried, in order, when every stream fails to start.
pub open spec fn sources_tried(pid: Option<u32>) -> Seq<AudioSource>
    decreases
            if pid is Some {
                1nat
            } else {
                0nat
            },
{
    seq![source_for(pid)] + if pid is Some {
        sources_tried(None)
    } else {
        Seq::empty()
    }
}

/// The target process is preferred and the whole system is the fallback; there is no third
/// try, and without a process there is only one.
pub proof fn lemma_fallback_order(pid: Option<u32>)
    ensures
        pid matches Some(p) ==> sources_tried(pid) == seq![
            AudioSource::Process(p),
            AudioSource::System,
        ],
        pid is None ==> sources_tried(pid) == seq![AudioSource::System],
{
    reveal_with_fuel(sources_tried, 2);
    assert(sources_tried(None) =~= seq![AudioSource::System]);
    if let Some(p) = pid {
        assert(sources_tried(pid) =~= seq![AudioSource::Process(p), AudioSource::System]);
    }
}

/// A lead silence is refused if and only if it is longer than the audio: for a track that starts
/// at or after the video, whenever the offset in frames exceeds the whole frames in it, and never
/// for one that starts before.
pub proof fn lemma_only_too_long_a_lead_is_refused(track: AudioTrack, video_start: Moment)
    ensures
        track.start.nanos < video_start.nanos ==> !track.disagrees(video_start),
        track.start.nanos >= video_start.nanos && track.channels > 0 ==> (track.disagrees(
            video_start,
        ) <==> track.offset(video_start) > track.samples@.len() / track.channels as nat),
        track.start.nanos >= video_start.nanos && track.channels == 0 ==> (track.disagrees(
            video_start,
        ) <==> track.offset(video_start) > 0),
        track.channels > 0 && 0 <= track.offset(video_start) && track.offset(video_start)
            * track.channels <= track.samples@.len() ==> !track.disagrees(video_start),
        track.channels > 0 && track.offset(video_start) * track.channels > track.samples@.len()
            ==> track.disagrees(video_start),
{
    let channels = track.channels as int;
    let offset = track.offset(video_start);
    let len = track.samples@.len() as int;
    if channels > 0 {
        let frames = len / channels;
        assert(0 <= offset && offset * channels <= len ==> offset <= frames) by (nonlinear_arith)
            requires
                channels > 0,
                len >= 0,
                frames == len / channels,
        ;
        assert(offset * channels > len ==> offset > frames) by (nonlinear_arith)
            requires
                channels > 0,
                len >= 0,
                frames == len / channels,
        ;
    }
}

/// A track plays from its own start on, wherever the video starts. Played from the start of the
/// video, sample `i` stands `offset` frames behind its place in the track, what lies before the
/// video is left out, and before the track there is silence. The offset has the sign of the time
/// between the two starts.
pub proof fn lemma_track_is_shifted_to_the_video(track: AudioTrack, video_start: Moment)
    ensures
        ({
            let out = track.aligned_to(video_start);
            let channels = if track.channels == 0 {
                1int
            } else {
                track.channels as int
            };
            let by = track.offset(video_start) * channels;
            let len = track.samples@.len();
            &&& out.len() == if len + by > 0 {
                len + by
            } else {
                0
            }
            &&& forall|i: int|
                0 <= i < len && 0 <= i + by ==> out[i + by] == #[trigger] track.samples@[i]
            &&& forall|j: int| 0 <= j < by ==> #[trigger] out[j] == 0
            &&& track.start.nanos >= video_start.nanos ==> track.offset(video_start) >= 0
            &&& track.start.nanos <= video_start.nanos ==> track.offset(video_start) <= 0
        }),
{
    lemma_alignment_moves_samples(
        track.samples@,
        track.wav_channels(),
        track.offset(video_start),
    );
    if track.start.nanos == video_start.nanos {
        double::lemma_whole_seconds_are_exact(0, track.wav_rate());
        assert(0 * track.wav_rate() == 0);
        assert(0nat * NANOS_PER_SEC as nat == 0);
    }
}

/// The offset between the origins of track and video is the time between them, in frames of the
/// track's rate, to the nearest frame and but for five parts in 2 to the 53rd.
pub proof fn lemma_offset_counts_the_time_between(track: AudioTrack, video_start: Moment)
    requires
        track.sample_rate > 0,
        -0x3fff_ffff_ffff_ffff * 1_000_000_000 < (track.start.nanos - video_start.nanos)
            * track.sample_rate < 0x3fff_ffff_ffff_ffff * 1_000_000_000,
    ensures
        ({
            let apart = (track.start.nanos - video_start.nanos) * track.sample_rate;
            let off = 2 * (track.offset(video_start) * 1_000_000_000) - 2 * apart;
            let slack = 0x20_0000_0000_0000 * 1_000_000_000 + 10 * (if apart >= 0 {
                apart
            } else {
                -apart
            });
            -slack <= 0x20_0000_0000_0000 * off <= slack
        }),
{
    let late = track.start.nanos - video_start.nanos;
    let rate = track.sample_rate as nat;
    if late >= 0 {
        double::lemma_whole_units_are_near(late as nat, rate);
        assert(late * rate >= 0) by (nonlinear_arith)
            requires
                late >= 0,
                rate >= 0,
        ;
    } else {
        double::lemma_whole_units_are_near((-late) as nat, rate);
        assert(late * rate == -((-late) * rate) && (-late) * rate >= 0) by (nonlinear_arith)
            requires
                late < 0,
                rate >= 0,
        ;
    }
}

/// The number that four bytes denote, low byte first.
pub open spec fn number_at(bytes: Seq<u8>, at: int) -> int {
    bytes[at] + 256 * bytes[at + 1] + 65536 * bytes[at + 2] + 16777216 * bytes[at + 3]
}

/// The number that two bytes denote, low byte first.
pub open spec fn short_at(bytes: Seq<u8>, at: int) -> int {
    bytes[at] + 256 * bytes[at + 1]
}

proof fn lemma_bytes_read_back(x: u32, y: u16)
    ensures
        le32(x).len() == 4,
        number_at(le32(x), 0) == x,
        le16(y).len() == 2,
        short_at(le16(y), 0) == y,
{
    assert(x % 256 + 256 * (x / 256 % 256) + 65536 * (x / 65536 % 256) + 16777216 * (x / 16777216)
        == x) by (nonlinear_arith)
        requires
            0 <= x <= 0xffff_ffff,
    ;
}

/// The file says of itself what it holds: it is marked as a WAV file of PCM samples of sixteen
/// bits, and rate, channels, bytes a second, bytes a frame and the sizes can be read off it.
pub proof fn lemma_wav_header_tells_the_format(
    sample_rate: u32,
    channels: u16,
    samples: Seq<i16>,
)
    requires
        sample_rate * channels * 2 <= u32::MAX,
        channels * 2 <= u16::MAX,
        36 + 2 * samples.len() <= u32::MAX,
    ensures
        ({
            let file = wav_file(sample_rate, channels, samples);
            &&& file.len() == 44 + 2 * samples.len()
            &&& file[0] == 'R' as u8 && file[1] == 'I' as u8 && file[2] == 'F' as u8 && file[3]
                == 'F' as u8
            &&& number_at(file, 4) == file.len() - 8
            &&& file[8] == 'W' as u8 && file[9] == 'A' as u8 && file[10] == 'V' as u8 && file[11]
                == 'E' as u8
            &&& file[12] == 'f' as u8 && file[13] == 'm' as u8 && file[14] == 't' as u8 && file[15]
                == ' ' as u8
            &&& number_at(file, 16) == 16
            &&& short_at(file, 20) == 1
            &&& short_at(file, 22) == channels
            &&& number_at(file, 24) == sample_rate
            &&& number_at(file, 28) == sample_rate * channels * 2
            &&& short_at(file, 32) == channels * 2
            &&& short_at(file, 34) == 16
            &&& file[36] == 'd' as u8 && file[37] == 'a' as u8 && file[38] == 't' as u8 && file[39]
                == 'a' as u8
            &&& number_at(file, 40) == file.len() - 44
        }),
{
    let size = data_size(samples.len());
    let header = wav_header(sample_rate, channels, size);
    let file = wav_file(sample_rate, channels, samples);
    assert(size == 2 * samples.len());
    lemma_bytes_read_back((36 + size) as u32, 1);
    lemma_bytes_read_back(16, channels);
    lemma_bytes_read_back(sample_rate, (channels * 2) as u16);
    assert(sample_rate * channels * 2 >= 0) by (nonlinear_arith)
        requires
            sample_rate >= 0,
            channels >= 0,
    ;
    lemma_bytes_read_back((sample_rate * channels * 2) as u32, 16);
    lemma_bytes_read_back(size, 0);
    assert(header.len() == 44);
    assert forall|i: int| 0 <= i < 44 implies #[trigger] file[i] == header[i] by {}
    assert(header.subrange(4, 8) =~= le32((36 + size) as u32));
    assert(header.subrange(16, 20) =~= le32(16));
    assert(header.subrange(20, 22) =~= le16(1));
    assert(header.subrange(22, 24) =~= le16(channels));
    assert(header.subrange(24, 28) =~= le32(sample_rate));
    assert(header.subrange(28, 32) =~= le32((sample_rate * channels * 2) as u32));
    assert(header.subrange(32, 34) =~= le16((channels * 2) as u16));
    assert(header.subrange(34, 36) =~= le16(16));
    assert(header.subrange(40, 44) =~= le32(size));
    assert(forall|i: int| 0 <= i < 4 ==> #[trigger] header[4 + i] == header.subrange(4, 8)[i]);
    assert(number_at(header, 4) == number_at(header.subrange(4, 8), 0));
    assert(number_at(header, 16) == number_at(header.subrange(16, 20), 0));
    assert(short_at(header, 20) == short_at(header.subrange(20, 22), 0));
    assert(short_at(header, 22) == short_at(header.subrange(22, 24), 0));
    assert(number_at(header, 24) == number_at(header.subrange(24, 28), 0));
    assert(number_at(header, 28) == number_at(header.subrange(28, 32), 0));
    assert(short_at(header, 32) == short_at(header.subrange(32, 34), 0));
    assert(short_at(header, 34) == short_at(header.subrange(34, 36), 0));
    assert(number_at(header, 40) == number_at(header.subrange(40, 44), 0));
}

/// A track has a WAV form unless a number in the header would overflow: rate times channels times
/// two, twice the channels, or the size of the file.
pub proof fn lemma_ordinary_tracks_are_encodable(track: AudioTrack, video_start: Moment)
    requires
        track.sample_rate > 0,
        track.channels > 0,
        track.sample_rate * track.channels * 2 <= u32::MAX,
        track.channels * 2 <= u16::MAX,
        36 + 2 * track.aligned_to(video_start).len() <= u32::MAX,
        2 * track.aligned_to(video_start).len() <= usize::MAX,
    ensures
        track.encodable(video_start),
{
}

/// A track has as many frames as whole groups of one sample for each channel fit into it, and
/// none without channels. Rate and channels of its WAV form are its own, or one.
pub proof fn lemma_frames_are_whole(track: AudioTrack)
    ensures
        track.channels > 0 ==> track.frame_count() * track.channels <= track.samples@.len() < (
        track.frame_count() + 1) * track.channels,
        track.channels == 0 ==> track.frame_count() == 0,
        track.sample_rate > 0 ==> track.wav_rate() == track.sample_rate,
        track.channels > 0 ==> track.wav_channels() == track.channels,
        track.sample_rate == 0 ==> track.wav_rate() == 1,
        track.channels == 0 ==> track.wav_channels() == 1,
{
    if track.channels > 0 {
        let len = track.samples@.len() as int;
        let channels = track.channels as int;
        let frames = len / channels;
        assert(frames * channels <= len < (frames + 1) * channels) by (nonlinear_arith)
            requires
                frames == len / channels,
                channels > 0,
        ;
    }
}

/// Frames play for as long as their number, divided by the rate, says, to the nanosecond and but
/// for three parts in 2 to the 53rd.
pub proof fn lemma_frames_play_at_their_rate(frames: nat, sample_rate: nat)
    requires
        sample_rate > 0,
    ensures
        ({
            let exact = frames * 1_000_000_000;
            let off = 2 * (playing_time(frames, sample_rate) * sample_rate) - 2 * exact;
            let slack = 0x20_0000_0000_0000 * sample_rate + 6 * exact;
            -slack <= 0x20_0000_0000_0000 * off <= slack
        }),
{
    double::lemma_nanos_are_near(frames, sample_rate);
}

/// The stream of the process is tried where there is one, and that of the system only where there
/// is none. What is said in the end names the failure of the system, and behind it that of the
/// process where that was tried.
pub proof fn lemma_process_is_preferred(
    opening: StreamOpening,
    pid: u32,
    system: Seq<char>,
    process: Seq<char>,
)
    ensures
        opening.pid == Some(pid) ==> opening.source() == AudioSource::Process(pid),
        opening.source() == AudioSource::System <==> opening.pid is None,
        no_stream_text(system, None) == "system loopback failed: "@ + system,
        no_stream_text(system, Some(process)) == no_stream_text(system, None)
            + " (process loopback earlier failed: "@ + process + ")"@,
        STREAM_RATE == 48000,
        STREAM_CHANNELS == 2,
        START_TIMEOUT_SECS == 5,
{
    assert(no_stream_text(system, None) =~= "system loopback failed: "@ + system);
    assert(no_stream_text(system, Some(process)) =~= no_stream_text(system, None)
        + " (process loopback earlier failed: "@ + process + ")"@);
}

/// The size that the header gives is that of the samples, less as many times four gigabytes as
/// are too many for it.
pub proof fn lemma_data_size_wraps(samples: nat)
    ensures
        2 * samples <= u32::MAX ==> data_size(samples) == 2 * samples,
        (2 * samples - data_size(samples)) % 0x1_0000_0000 == 0,
{
}

/// An offset of more frames than a signed 64-bit number counts is taken for the most that it does.
pub proof fn lemma_offset_has_a_limit(start: Moment, video_start: Moment, rate: nat)
    requires
        (start.nanos - video_start.nanos) * rate >= 0x1_0000_0000_0000_0000 * 1_000_000_000,
        start.nanos >= video_start.nanos,
    ensures
        offset_frames(start, video_start, rate) == i64::MAX,
        offset_frames(video_start, start, rate) == -i64::MAX,
{
    let apart = (start.nanos - video_start.nanos) as nat;
    double::lemma_whole_units_are_near(apart, rate);
    assert(apart > 0) by (nonlinear_arith)
        requires
            apart * rate > 0,
            apart >= 0,
    ;
}

} // verus!
