//! Special roles of the desktop's own windows.
//!
//! The panel and the application search are ordinary Wayland windows, but
//! they must not behave like ordinary windows. The role is decided by the
//! application identifier, and only the desktop's own identifiers count, so a
//! foreign program cannot declare itself a panel.

use vstd::prelude::*;

use crate::text::str_eq;

verus! {

/// How the compositor treats a window.
#[derive(Debug, Clone, Copy, PartialEq, Eq, Structural)]
pub enum Role {
    /// An ordinary window: takes part in the layout.
    Normal,
    /// The desktop's panel: keeps its own strip, outside the layout.
    Panel,
    /// The application search: a floating window in the middle of the screen.
    Launcher,
}

/// Identifier of the panel.
pub const PANEL_APP_ID: &'static str = "dev.hypede.Shell";

/// Identifier of the application search window.
pub const LAUNCHER_APP_ID: &'static str = "dev.hypede.Launcher";

/// The role for an application identifier: exactly the panel's or the
/// launcher's identifier gives that role, anything else is ordinary.
pub open spec fn role_spec(app_id: Seq<char>) -> Role {
    if app_id == PANEL_APP_ID@ {
        Role::Panel
    } else if app_id == LAUNCHER_APP_ID@ {
        Role::Launcher
    } else {
        Role::Normal
    }
}

/// Decides the role of a window by its application identifier.
pub fn role_for(app_id: &str) -> (r: Role)
    ensures
        r == role_spec(app_id@),
{
    if str_eq(app_id, PANEL_APP_ID) {
        Role::Panel
    } else if str_eq(app_id, LAUNCHER_APP_ID) {
        Role::Launcher
    } else {
        Role::Normal
    }
}

} // verus!
