pub mod audio;
pub mod audio_thread;
pub mod encoder;
pub mod ffmpeg;
pub mod finalize;
pub mod record;
pub mod retention;
pub mod segments;
pub mod service;
pub mod window;
