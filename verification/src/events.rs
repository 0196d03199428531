//! Events exchanged with the shell around the core: window-control commands
//! and tray-icon events.  The core only defines them; the shell produces and
//! consumes them.

use vstd::prelude::*;

verus! {

/// Commands sent to the shell's main loop to control the launcher window.
#[derive(Debug, Clone, PartialEq, Eq, Structural)]
pub enum AppCommand {
    ToggleWindow,
    ShowWindow,
    HideWindow,
    Quit,
}

/// What the tray icon reports back to the shell.
#[derive(Debug, Clone, PartialEq, Eq, Structural)]
pub enum TrayEvent {
    Click,
    DoubleClick,
    OpenTrident,
    ToggleStartAtLogin,
    Quit,
}

} // verus!
