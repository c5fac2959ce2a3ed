use crate::action;
use crate::darksouls;
use vstd::prelude::*;

verus! {

/// The application configuration: one optional action per watched event,
/// and whether a diagnostic window is shown. Loading it from a file is I/O
/// and lives with the program around this library; unknown action kinds
/// fail that loading instead of silently doing nothing.
pub struct Config {
    /// Whether the diagnostic overlay window is enabled.
    pub debug_window: bool,
    /// The action to dispatch when the video stream comes up.
    pub stream_on: Option<action::Config>,
    /// The action to dispatch when the video stream goes away.
    pub stream_off: Option<action::Config>,
    /// The configuration of the death-screen watcher, when enabled.
    pub dark_souls: Option<darksouls::Config>,
}

} // verus!
