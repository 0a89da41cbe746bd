//! User settings.

use crate::update::opt_text;
use vstd::prelude::*;

verus! {

#[derive(Debug, Clone)]
pub struct AppSettings {
    pub da_path: Option<String>,
    pub preloader_path: Option<String>,
    pub default_output_path: Option<String>,
    pub auto_check_updates: bool,
    pub antumbra_version: Option<String>,
}

impl Default for AppSettings {
    /// No paths chosen, update checks on, tool version unknown.
    fn default() -> (r: AppSettings)
        ensures
            r.da_path is None,
            r.preloader_path is None,
            r.default_output_path is None,
            r.auto_check_updates,
            r.antumbra_version is None,
    {
        AppSettings {
            da_path: None,
            preloader_path: None,
            default_output_path: None,
            auto_check_updates: true,
            antumbra_version: None,
        }
    }
}

/// True when the recorded tool version must be replaced by the detected one.
pub fn needs_version_sync(recorded: &Option<String>, detected: &String) -> (r: bool)
    ensures
        r == (opt_text(*recorded) != Some(detected@)),
{
    match recorded {
        Some(v) => !(*v == *detected),
        None => true,
    }
}

} // verus!
