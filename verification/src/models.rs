//! The data that the restore engine works on.

use vstd::prelude::*;

verus! {

/// One window of a saved session.
#[derive(Debug)]
pub struct WindowEntry {
    pub app_id: String,
    pub launch_cmd: String,
    pub workspace: String,
    pub monitor: Option<String>,
    pub floating: bool,
    pub fullscreen: bool,
    pub position: Option<(i32, i32)>,
    pub size: Option<(i32, i32)>,
    pub cwd: Option<String>,
    pub profile: Option<String>,
}

/// What a session file says of the session as a whole.
#[derive(Debug)]
pub struct SessionMeta {
    pub name: String,
    /// Seconds since the epoch at which the session was saved.
    pub timestamp: i64,
}

/// A saved session.
#[derive(Debug)]
pub struct SessionFile {
    pub session: SessionMeta,
    pub windows: Vec<WindowEntry>,
}

/// A window as the compositor reports it.
#[derive(Debug)]
pub struct HyprClient {
    pub address: String,
    pub class: String,
    pub workspace: String,
    pub monitor: i64,
    pub at: (i32, i32),
    pub size: (i32, i32),
    pub floating: bool,
    pub fullscreen_mode: i32,
    pub pid: i32,
}

/// A monitor as the compositor reports it.
#[derive(Debug)]
pub struct HyprMonitor {
    pub id: i64,
    pub name: String,
}

/// A window that is to be saved.
#[derive(Debug)]
pub struct TrackedWindow {
    pub address: String,
    pub app_id: String,
    pub launch_cmd: String,
    pub workspace: String,
    pub monitor: String,
    pub position: (i32, i32),
    pub size: (i32, i32),
    pub floating: bool,
    pub fullscreen: bool,
    pub pid: i32,
    pub profile: Option<String>,
}

/// An event of the compositor's event socket.
#[derive(Debug)]
pub enum HyprEvent {
    /// A window has opened.
    OpenWindow { address: String, workspace: String, class: String, title: String },
    /// Any event that the restore engine has no use for.
    Other,
}

} // verus!
