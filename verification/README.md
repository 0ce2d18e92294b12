# typhoon_rs

A rolling recorder for one game window: the last seconds of its picture and sound, kept on disk
and in memory, joined into one file when the recording stops.

- `src/` is the library, verified with Verus. It decides; it performs no I/O.
  - `backend/capture/encoder.rs`: constant frame rate pacing on the wall clock.
  - `backend/capture/segments.rs`, `finalize.rs`, `ffmpeg.rs`: the rolling set of segment files,
    how they are joined, and what FFmpeg is asked to do.
  - `backend/capture/retention.rs`, `audio_thread.rs`, `audio.rs`: the rolling window of audio,
    its alignment to the video, and its WAV form.
  - `backend/capture/record.rs`, `service.rs`, `window.rs`: the lifecycle of a recording, and
    single pictures.
  - `app/`: the shared game state, the supervisor of the services, and the lifecycle of the
    application.
  - `util/`: text, the clock, double-precision arithmetic, and the configuration.
- `app/` is the program around it: threads, processes, files and the platform's capture APIs.
  It performs the actions that the library's state machines ask for and reports back the events.
- `tests/` runs the library on concrete values.

Times are whole nanoseconds of one monotonic clock. They are turned into frame numbers and back
in double precision, which `util/double.rs` carries out in integers, so that every rounding is
part of what is proved.
