//! What the tray does to the floating window.

use vstd::prelude::*;

verus! {

/// What a tray click (or the tray's show / hide item) does to the window.
#[derive(Debug, Clone, Copy, PartialEq, Eq, Structural)]
pub enum WindowAction {
    /// Bring a minimized window back and focus it.
    Restore,
    Hide,
    /// Show a hidden window and focus it.
    Show,
}

/// Minimized counts as away rather than as shown: Windows still calls a
/// minimized window visible, and hiding it would take a second click to get
/// the note back. A state that cannot be read leans towards hiding, so the
/// click still does something.
pub fn toggle_action(minimized: Option<bool>, visible: Option<bool>) -> (a: WindowAction)
    ensures
        a == (if minimized == Some(true) {
            WindowAction::Restore
        } else if visible == Some(false) {
            WindowAction::Show
        } else {
            WindowAction::Hide
        }),
{
    if let Some(true) = minimized {
        return WindowAction::Restore;
    }
    match visible {
        Some(false) => WindowAction::Show,
        _ => WindowAction::Hide,
    }
}

} // verus!
