use vstd::prelude::*;

verus! {

/// Settings of the application and of its capture target.
#[derive(Debug, Clone)]
pub struct GeneralConfig {
    pub log_level: String,
    pub log_dir: String,
    /// In days.
    pub lifetime: u32,
    pub capture_target_window_title: String,
}

} // verus!
