//! The verified core of a rolling screen recorder: segment and frame pacing, audio
//! retention and alignment, and the lifecycle decisions around them.

pub mod app;
pub mod backend;
pub mod util;
