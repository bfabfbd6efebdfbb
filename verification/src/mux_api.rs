//! The multiplexer's own control methods (`mux.*`), carried on the same
//! transport as the pane protocol: their names, error codes, parameters and
//! results.

use vstd::prelude::*;
use crate::text::{chars_of, str_eq};

verus! {

/// The control methods.
#[derive(Debug, Clone, Copy, PartialEq, Eq, Structural)]
pub enum MuxMethod {
    ListPanes,
    GetStatus,
    SendKeys,
    FocusPane,
    SplitPane,
    ClosePane,
    CreateTab,
    CloseTab,
    SetAgentInfo,
}

/// The wire name of a control method.
pub open spec fn mux_method_name(m: MuxMethod) -> Seq<char> {
    match m {
        MuxMethod::ListPanes => "mux.list_panes"@,
        MuxMethod::GetStatus => "mux.get_status"@,
        MuxMethod::SendKeys => "mux.send_keys"@,
        MuxMethod::FocusPane => "mux.focus_pane"@,
        MuxMethod::SplitPane => "mux.split_pane"@,
        MuxMethod::ClosePane => "mux.close_pane"@,
        MuxMethod::CreateTab => "mux.create_tab"@,
        MuxMethod::CloseTab => "mux.close_tab"@,
        MuxMethod::SetAgentInfo => "mux.set_agent_info"@,
    }
}

/// The prefix that marks a control method.
pub open spec fn has_mux_prefix(s: Seq<char>) -> bool {
    s.len() >= 4 && s[0] == 'm' && s[1] == 'u' && s[2] == 'x' && s[3] == '.'
}

impl MuxMethod {
    /// The method's wire name.
    pub fn as_str(self) -> (r: &'static str)
        ensures
            r@ == mux_method_name(self),
    {
        match self {
            MuxMethod::ListPanes => "mux.list_panes",
            MuxMethod::GetStatus => "mux.get_status",
            MuxMethod::SendKeys => "mux.send_keys",
            MuxMethod::FocusPane => "mux.focus_pane",
            MuxMethod::SplitPane => "mux.split_pane",
            MuxMethod::ClosePane => "mux.close_pane",
            MuxMethod::CreateTab => "mux.create_tab",
            MuxMethod::CloseTab => "mux.close_tab",
            MuxMethod::SetAgentInfo => "mux.set_agent_info",
        }
    }

    /// The method with wire name `s`, if any.
    pub fn parse_method(s: &str) -> (r: Option<MuxMethod>)
        ensures
            match r {
                Some(m) => mux_method_name(m) == s@,
                None => forall|m: MuxMethod| mux_method_name(m) != s@,
            },
    {
        if str_eq(s, "mux.list_panes") {
            Some(MuxMethod::ListPanes)
        } else if str_eq(s, "mux.get_status") {
            Some(MuxMethod::GetStatus)
        } else if str_eq(s, "mux.send_keys") {
            Some(MuxMethod::SendKeys)
        } else if str_eq(s, "mux.focus_pane") {
            Some(MuxMethod::FocusPane)
        } else if str_eq(s, "mux.split_pane") {
            Some(MuxMethod::SplitPane)
        } else if str_eq(s, "mux.close_pane") {
            Some(MuxMethod::ClosePane)
        } else if str_eq(s, "mux.create_tab") {
            Some(MuxMethod::CreateTab)
        } else if str_eq(s, "mux.close_tab") {
            Some(MuxMethod::CloseTab)
        } else if str_eq(s, "mux.set_agent_info") {
            Some(MuxMethod::SetAgentInfo)
        } else {
            None
        }
    }

    /// Whether `s` names a control method, known or not (`mux.` prefix).
    pub fn is_mux_method(s: &str) -> (r: bool)
        ensures
            r == has_mux_prefix(s@),
    {
        let v = chars_of(s);
        v.len() >= 4 && v[0] == 'm' && v[1] == 'u' && v[2] == 'x' && v[3] == '.'
    }
}

/// Distinct methods have distinct names, and every name has the `mux.`
/// prefix.
pub proof fn lemma_mux_names()
    ensures
        forall|a: MuxMethod, b: MuxMethod| mux_method_name(a) == mux_method_name(b) ==> a == b,
        forall|m: MuxMethod| has_mux_prefix(#[trigger] mux_method_name(m)),
{
    reveal_strlit("mux.list_panes");
    reveal_strlit("mux.get_status");
    reveal_strlit("mux.send_keys");
    reveal_strlit("mux.focus_pane");
    reveal_strlit("mux.split_pane");
    reveal_strlit("mux.close_pane");
    reveal_strlit("mux.create_tab");
    reveal_strlit("mux.close_tab");
    reveal_strlit("mux.set_agent_info");
    assert forall|a: MuxMethod, b: MuxMethod| mux_method_name(a) == mux_method_name(b) implies a
        == b by {
        if a != b {
            let (x, y) = (mux_method_name(a), mux_method_name(b));
            assert(x.len() != y.len() || x[4] != y[4] || x[5] != y[5] || x[6] != y[6] || x[9] != y[9]);
        }
    }
}

/// A method's name reads back as the method, and is recognised as a
/// control method.
pub proof fn law_mux_method_round_trip(m: MuxMethod)
    ensures
        forall|r: MuxMethod| mux_method_name(r) == mux_method_name(m) ==> r == m,
        has_mux_prefix(mux_method_name(m)),
{
    lemma_mux_names();
}

pub const PANE_NOT_FOUND: i32 = -32001;
pub const TAB_NOT_FOUND: i32 = -32002;
pub const CANNOT_CLOSE_LAST_PANE: i32 = -32003;
pub const CANNOT_CLOSE_LAST_TAB: i32 = -32004;
pub const SPLIT_FAILED: i32 = -32005;

/// `mux.list_panes` parameters (none).
#[derive(Debug, Clone, Copy)]
pub struct ListPanesParams {}

/// `mux.list_panes` result.
#[derive(Debug, Clone)]
pub struct ListPanesResult {
    pub panes: Vec<PaneInfo>,
}

/// What is reported of a pane.
#[derive(Debug, Clone)]
pub struct PaneInfo {
    pub pane_id: u32,
    pub tab_id: u32,
    pub focused: bool,
    pub cols: u16,
    pub rows: u16,
    pub title: String,
    pub agent_type: String,
    pub agent_status: String,
}

/// `mux.send_keys` parameters.
#[derive(Debug, Clone)]
pub struct SendKeysParams {
    pub pane_id: u32,
    pub data: String,
}

/// `mux.send_keys` result (empty).
#[derive(Debug, Clone, Copy)]
pub struct SendKeysResult {}

/// `mux.focus_pane` parameters.
#[derive(Debug, Clone, Copy)]
pub struct FocusPaneParams {
    pub pane_id: u32,
}

/// `mux.focus_pane` result (empty).
#[derive(Debug, Clone, Copy)]
pub struct FocusPaneResult {}

/// `mux.split_pane` parameters.
#[derive(Debug, Clone)]
pub struct SplitPaneParams {
    pub pane_id: u32,
    pub direction: String,
}

/// `mux.split_pane` result.
#[derive(Debug, Clone, Copy)]
pub struct SplitPaneResult {
    pub new_pane_id: u32,
}

/// `mux.close_pane` parameters.
#[derive(Debug, Clone, Copy)]
pub struct ClosePaneParams {
    pub pane_id: u32,
}

/// `mux.close_pane` result (empty).
#[derive(Debug, Clone, Copy)]
pub struct ClosePaneResult {}

/// `mux.create_tab` parameters (none).
#[derive(Debug, Clone, Copy)]
pub struct CreateTabParams {}

/// `mux.create_tab` result.
#[derive(Debug, Clone, Copy)]
pub struct CreateTabResult {
    pub tab_id: u32,
    pub pane_id: u32,
}

/// `mux.close_tab` parameters.
#[derive(Debug, Clone, Copy)]
pub struct CloseTabParams {
    pub tab_id: u32,
}

/// `mux.close_tab` result (empty).
#[derive(Debug, Clone, Copy)]
pub struct CloseTabResult {}

/// `mux.set_agent_info` parameters.
#[derive(Debug, Clone)]
pub struct SetAgentInfoParams {
    pub pane_id: u32,
    pub agent_type: Option<String>,
    pub agent_status: Option<String>,
}

/// `mux.set_agent_info` result (empty).
#[derive(Debug, Clone, Copy)]
pub struct SetAgentInfoResult {}

/// `mux.get_status` parameters (none).
#[derive(Debug, Clone, Copy)]
pub struct GetStatusParams {}

/// `mux.get_status` result.
#[derive(Debug, Clone)]
pub struct GetStatusResult {
    pub workspace_id: String,
    pub pid: u32,
    pub version: String,
    pub active_tab: u32,
    pub pane_count: usize,
    pub tab_count: usize,
    pub socket_path: String,
}

} // verus!
