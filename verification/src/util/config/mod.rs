pub mod capture;
pub mod general;

use vstd::prelude::*;

use crate::util::config::capture::CaptureConfig;
use crate::util::config::general::GeneralConfig;

verus! {

/// The whole configuration.
#[derive(Debug, Clone)]
pub struct Config {
    pub general: GeneralConfig,
    pub capture: CaptureConfig,
}

} // verus!
