use vstd::prelude::*;

verus! {

/// What is captured, and where it goes.
#[derive(Debug, Clone)]
pub struct CaptureConfig {
    pub fps: u32,
    /// Length of the footage that is kept, in seconds.
    pub duration: u32,
    pub output_dir: String,
    /// Capture the target process' audio alongside the video.
    pub audio: bool,
}

/// Whether audio is captured where the configuration does not say: it is, so that a
/// configuration written before the setting existed keeps working.
pub fn default_audio() -> (audio: bool)
    ensures
        audio,
{
    true
}

} // verus!
