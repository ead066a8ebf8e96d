//! Control of the windows from outside: what is asked, what is answered, and
//! which window is meant.
use vstd::prelude::*;
use vstd::string::*;

use crate::paths::{default_extension, with_default_extension};

verus! {

/// How long an answer of the windows is waited for, in milliseconds.
pub const UI_CONTROL_TIMEOUT_MILLIS: u64 = 5_000;

#[derive(Debug)]
pub struct UiKeystrokeResult {
    pub keystroke: String,
    pub handled: bool,
    pub window_count: usize,
}

#[derive(Debug, Clone, Copy, PartialEq, Eq, Structural)]
pub struct UiSnapshot {
    pub window_count: usize,
    pub has_active_window: bool,
}

/// Metadata returned after the current Water window has been rendered to an
/// image at the requested path.
#[derive(Debug)]
pub struct UiScreenshot {
    pub path: String,
    pub width: u32,
    pub height: u32,
}

/// How far a request to the windows came.
#[derive(Debug)]
pub enum ControlReply<T> {
    /// The windows take no requests.
    NotSent,
    /// No answer came in time.
    TimedOut,
    Answered(Result<T, String>),
}

/// What a client is told of a request.
pub fn control_result<T>(reply: ControlReply<T>) -> (result: Result<T, String>)
    ensures
        match reply {
            ControlReply::NotSent => result matches Err(text) && text@
                == "UI control channel is unavailable"@,
            ControlReply::TimedOut => result matches Err(text) && text@
                == "timed out waiting for the GPUI thread"@,
            ControlReply::Answered(answer) => result == answer,
        },
{
    match reply {
        ControlReply::NotSent => Err("UI control channel is unavailable".to_owned()),
        ControlReply::TimedOut => Err("timed out waiting for the GPUI thread".to_owned()),
        ControlReply::Answered(answer) => answer,
    }
}

/// The window that a request goes to: the active one, or the frontmost one, or
/// the one that was opened last.
pub fn controlled_window(active: Option<u64>, stack: &Vec<u64>, windows: &Vec<u64>) -> (window:
    Result<u64, String>)
    ensures
        match window {
            Ok(window) => window == (if active is Some {
                active->0
            } else if stack@.len() > 0 {
                stack@[0]
            } else {
                windows@.last()
            }) && (active is Some || stack@.len() > 0 || windows@.len() > 0),
            Err(text) => active is None && stack@.len() == 0 && windows@.len() == 0 && text@
                == "Water has no open window"@,
        },
{
    if let Some(window) = active {
        return Ok(window);
    }
    if stack.len() > 0 {
        return Ok(stack[0]);
    }
    if windows.len() > 0 {
        return Ok(windows[windows.len() - 1]);
    }
    Err("Water has no open window".to_owned())
}

/// How often a controlled click counts: at least once.
pub fn click_count(asked: usize) -> (count: usize)
    ensures
        count == if asked == 0 {
            1
        } else {
            asked
        },
{
    asked.max(1)
}

/// Where a screenshot is saved: images without an extension are PNG files.
pub fn screenshot_path(path: &str) -> (full: String)
    ensures
        full@ == with_default_extension(path@, "png"@),
{
    default_extension(path, "png")
}

/// Whether the settings window that was opened before is shown again: a handle
/// can outlive its window, but a window that merely cannot be reached for the
/// moment stays the only one.
pub fn keeps_settings_window(opened: bool, activated: bool, listed: bool) -> (keeps: bool)
    ensures
        keeps == (opened && (activated || listed)),
{
    opened && (activated || listed)
}

/// What the application calls itself towards the system.
#[derive(Debug, Clone, Copy)]
pub struct AppIdentity {
    pub identifier: &'static str,
    pub name: &'static str,
}

/// The identity of a build; only a release has the plain one.
pub fn app_identity(release: bool) -> (identity: AppIdentity)
    ensures
        identity.identifier@ == (if release {
            "dev.water.terminal"@
        } else {
            "dev.water.terminal.dev"@
        }),
        identity.name@ == (if release {
            "Water"@
        } else {
            "Water Dev"@
        }),
{
    if release {
        AppIdentity { identifier: "dev.water.terminal", name: "Water" }
    } else {
        AppIdentity { identifier: "dev.water.terminal.dev", name: "Water Dev" }
    }
}

} // verus!
