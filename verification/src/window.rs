//! Decisions of the desktop shell around its main window: when a notification
//! is shown, which navigations the webview may follow, what the tray menu does.
use vstd::prelude::*;
use crate::fspath::Os;
use crate::text::str_eq;

verus! {

// ---------------------------------------------------------------- notifications

/// What could be learned of the main window. A query that failed, or that was
/// not made, is `None`.
pub struct WindowProbe {
    pub visible: Option<bool>,
    pub minimized: Option<bool>,
    pub focused: Option<bool>,
}

/// Whether the user is not looking at the main window. Only Windows can tell:
/// there the window counts as obscured when it is missing, hidden (or its
/// visibility unknown), minimised, or without focus (an unknown state reads as
/// not minimised and not focused). Elsewhere it always counts as obscured.
pub open spec fn obscured(os: Os, main: Option<WindowProbe>) -> bool {
    if os != Os::Windows {
        true
    } else {
        match main {
            None => true,
            Some(w) => match w.visible {
                Some(true) => {
                    (match w.minimized {
                        Some(m) => m,
                        None => false,
                    }) || !(match w.focused {
                        Some(f) => f,
                        None => false,
                    })
                },
                _ => true,
            },
        }
    }
}

/// Whether a notification is shown: only when the main window is obscured.
pub fn window_obscured(os: Os, main: &Option<WindowProbe>) -> (r: bool)
    ensures
        r == obscured(os, *main),
{
    if os != Os::Windows {
        return true;
    }
    match main {
        None => true,
        Some(w) => match w.visible {
            Some(true) => {
                let minimized = match w.minimized {
                    Some(m) => m,
                    None => false,
                };
                let focused = match w.focused {
                    Some(f) => f,
                    None => false,
                };
                minimized || !focused
            },
            _ => true,
        },
    }
}

// ---------------------------------------------------------------- navigation

/// The hosts of the shell page and of the local DSH service.
pub open spec fn local_host(host: Seq<char>) -> bool {
    host == "localhost"@ || host == "127.0.0.1"@ || host == "::1"@ || host == "tauri.localhost"@
}

/// Which navigations the webview follows: the app's own `tauri:` and `ipc:`
/// pages, `http(s)` to a local host, and `about:blank`. Everything else
/// (`file:`, other schemes, outside sites) is refused, so that the system is
/// never asked to open it.
pub open spec fn navigation_ok(scheme: Seq<char>, host: Option<Seq<char>>, path: Seq<char>) -> bool {
    if scheme == "tauri"@ || scheme == "ipc"@ {
        true
    } else if scheme == "http"@ || scheme == "https"@ {
        local_host(
            match host {
                Some(h) => h,
                None => ""@,
            },
        )
    } else if scheme == "about"@ {
        path == "blank"@
    } else {
        false
    }
}

/// Whether the webview may navigate to a URL with these parts.
pub fn navigation_allowed(scheme: &str, host: &Option<String>, path: &str) -> (r: bool)
    ensures
        r == navigation_ok(scheme@, host.deep_view(), path@),
{
    if str_eq(scheme, "tauri") || str_eq(scheme, "ipc") {
        true
    } else if str_eq(scheme, "http") || str_eq(scheme, "https") {
        let h: &str = match host {
            Some(h) => h.as_str(),
            None => "",
        };
        str_eq(h, "localhost") || str_eq(h, "127.0.0.1") || str_eq(h, "::1") || str_eq(h, "tauri.localhost")
    } else if str_eq(scheme, "about") {
        str_eq(path, "blank")
    } else {
        false
    }
}

// ---------------------------------------------------------------- tray and close

/// What a tray menu item does.
#[derive(Clone, Copy, PartialEq, Eq, Structural, Debug)]
pub enum TrayAction {
    /// Restore, show and focus the main window.
    OpenMain,
    /// Stop DSH and leave the app.
    Quit,
    /// Not one of ours.
    Ignore,
}

pub open spec fn tray_action_of(id: Seq<char>) -> TrayAction {
    if id == "open_dsh"@ {
        TrayAction::OpenMain
    } else if id == "quit"@ {
        TrayAction::Quit
    } else {
        TrayAction::Ignore
    }
}

/// Routes a tray menu event by the item's id.
pub fn tray_action(id: &str) -> (r: TrayAction)
    ensures
        r == tray_action_of(id@),
{
    if str_eq(id, "open_dsh") {
        TrayAction::OpenMain
    } else if str_eq(id, "quit") {
        TrayAction::Quit
    } else {
        TrayAction::Ignore
    }
}

/// Closing the main window hides it to the tray (DSH keeps running); other
/// windows close.
pub fn hides_on_close(label: &str) -> (r: bool)
    ensures
        r == (label@ == "main"@),
{
    str_eq(label, "main")
}

} // verus!
