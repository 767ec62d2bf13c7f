//! The state the application's windows share.
use vstd::prelude::*;
use crate::settings::Settings;

verus! {

/// The state shared by the application's windows: the settings in use.
#[derive(Debug)]
pub struct AppState {
    /// The settings in use.
    pub settings: Settings,
}

impl AppState {
    /// The state at start-up, with the settings that were loaded.
    pub fn new(settings: Settings) -> (r: AppState)
        ensures
            r.settings == settings,
    {
        AppState { settings }
    }
}

} // verus!
