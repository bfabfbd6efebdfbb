//! Automation commands sent to a running multiplexer over its local socket,
//! and the socket's name.

use vstd::prelude::*;
use crate::text::{concat2, decimal, u64_to_string};

verus! {

/// An automation command.
#[derive(Debug, Clone)]
pub enum Command {
    /// List every pane.
    ListPanes,
    /// List the tabs (count and active one).
    ListTabs,
    /// Split the active pane: `vertical` side by side, else one above the other.
    Split { vertical: bool },
    /// Open a tab.
    NewTab,
    /// Focus a pane.
    SelectPane { id: u64 },
    /// Move focus in a direction (`left`, `right`, `up`, `down`).
    Focus { dir: String },
    /// Send bytes to a pane (the active one when none is named).
    SendKeys { pane: Option<u64>, data: String },
    /// Capture a pane's text (the active one when none is named).
    CapturePane { pane: Option<u64> },
    /// Close a pane.
    KillPane { id: u64 },
}

/// What is reported of a pane.
#[derive(Debug, Clone, Copy, PartialEq, Eq, Structural)]
pub struct PaneInfo {
    pub id: u64,
    pub active: bool,
    pub cols: u16,
    pub rows: u16,
}

/// The socket name of the multiplexer with process id `pid`:
/// `zm-mux-<pid>.sock`.
pub fn socket_name(pid: u32) -> (r: String)
    ensures
        r@ == "zm-mux-"@ + decimal(pid as nat) + ".sock"@,
{
    let n = u64_to_string(pid as u64);
    let a = concat2("zm-mux-", n.as_str());
    concat2(a.as_str(), ".sock")
}

} // verus!
