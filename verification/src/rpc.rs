//! The pane backend protocol (JSON-RPC 2.0 over newline-delimited JSON):
//! its methods, error codes, parameters and results, and a minimal
//! in-memory backend that tracks contexts without spawning processes.
//!
//! | Direction | Method | Purpose |
//! |---|---|---|
//! | client→server | `initialize` | Handshake, returns `self_context_id` |
//! | client→server | `spawn_agent` | Spawn a teammate process in a new pane |
//! | client→server | `write` | Send stdin bytes to a context (base64) |
//! | client→server | `capture` | Read scrollback from a context |
//! | client→server | `kill` | Terminate a context |
//! | client→server | `list` | Enumerate active contexts |
//! | server→client | `context_exited` | Push notification when a context exits |
//!
//! Putting requests and responses on the wire is the application's part.

use std::collections::HashMap;
use vstd::prelude::*;
use crate::text::{concat2, decimal, owned, str_eq, u64_to_string};

verus! {

/// The protocol version written in every message.
pub const JSONRPC_VERSION: &'static str = "2.0";

/// Identifier of a context (a pane running an agent).
#[derive(Debug, Clone, PartialEq, Eq, Hash)]
pub struct ContextId(pub String);

impl ContextId {
    /// A context id holding `s`.
    pub fn new(s: &str) -> (r: ContextId)
        ensures
            r.0@ == s@,
    {
        ContextId(owned(s))
    }
}

/// A copy of a context id.
pub fn copy_id(id: &ContextId) -> (r: ContextId)
    ensures
        r == *id,
{
    ContextId(id.0.clone())
}

/// The protocol's methods.
#[derive(Debug, Clone, Copy, PartialEq, Eq, Structural)]
pub enum RpcMethod {
    Initialize,
    SpawnAgent,
    Write,
    Capture,
    Kill,
    List,
}

/// The wire name of a method.
pub open spec fn rpc_method_name(m: RpcMethod) -> Seq<char> {
    match m {
        RpcMethod::Initialize => "initialize"@,
        RpcMethod::SpawnAgent => "spawn_agent"@,
        RpcMethod::Write => "write"@,
        RpcMethod::Capture => "capture"@,
        RpcMethod::Kill => "kill"@,
        RpcMethod::List => "list"@,
    }
}

impl RpcMethod {
    /// The method's wire name.
    pub fn as_str(self) -> (r: &'static str)
        ensures
            r@ == rpc_method_name(self),
    {
        match self {
            RpcMethod::Initialize => "initialize",
            RpcMethod::SpawnAgent => "spawn_agent",
            RpcMethod::Write => "write",
            RpcMethod::Capture => "capture",
            RpcMethod::Kill => "kill",
            RpcMethod::List => "list",
        }
    }

    /// The method with wire name `name`, if any.
    pub fn from_name(name: &str) -> (r: Option<RpcMethod>)
        ensures
            match r {
                Some(m) => rpc_method_name(m) == name@,
                None => forall|m: RpcMethod| rpc_method_name(m) != name@,
            },
    {
        proof {
            lemma_rpc_names_distinct();
        }
        if str_eq(name, "initialize") {
            Some(RpcMethod::Initialize)
        } else if str_eq(name, "spawn_agent") {
            Some(RpcMethod::SpawnAgent)
        } else if str_eq(name, "write") {
            Some(RpcMethod::Write)
        } else if str_eq(name, "capture") {
            Some(RpcMethod::Capture)
        } else if str_eq(name, "kill") {
            Some(RpcMethod::Kill)
        } else if str_eq(name, "list") {
            Some(RpcMethod::List)
        } else {
            None
        }
    }
}

/// Distinct methods have distinct wire names.
pub proof fn lemma_rpc_names_distinct()
    ensures
        forall|a: RpcMethod, b: RpcMethod| rpc_method_name(a) == rpc_method_name(b) ==> a == b,
{
    reveal_strlit("initialize");
    reveal_strlit("spawn_agent");
    reveal_strlit("write");
    reveal_strlit("capture");
    reveal_strlit("kill");
    reveal_strlit("list");
    assert forall|a: RpcMethod, b: RpcMethod| rpc_method_name(a) == rpc_method_name(b) implies a
        == b by {
        if a != b {
            let (x, y) = (rpc_method_name(a), rpc_method_name(b));
            assert(x.len() != y.len() || x[0] != y[0] || x[1] != y[1]);
        }
    }
}

/// Reading back a method's wire name gives the method.
pub proof fn law_rpc_method_name_round_trip(m: RpcMethod)
    ensures
        forall|r: RpcMethod| rpc_method_name(r) == rpc_method_name(m) ==> r == m,
{
    lemma_rpc_names_distinct();
}

/// A request id: a number or a string.
#[derive(Debug, Clone, PartialEq, Eq)]
pub enum RequestId {
    Num(i64),
    Str(String),
}

/// An error answered to a request.
#[derive(Debug, Clone)]
pub struct RpcError {
    pub code: i32,
    pub message: String,
}

impl RpcError {
    pub const PARSE_ERROR: i32 = -32700;
    pub const INVALID_REQUEST: i32 = -32600;
    pub const METHOD_NOT_FOUND: i32 = -32601;
    pub const INVALID_PARAMS: i32 = -32602;
    pub const INTERNAL_ERROR: i32 = -32603;

    /// An error with the given code and message.
    pub fn new(code: i32, message: String) -> (r: RpcError)
        ensures
            r.code == code,
            r.message == message,
    {
        RpcError { code, message }
    }
}

/// Server-defined error code for a context that does not exist (JSON-RPC
/// reserves -32000..=-32099 for such codes).
pub const CONTEXT_NOT_FOUND: i32 = -32000;

/// A server→client notification; `context_exited` is the only one.
#[derive(Debug, Clone)]
pub struct Notification {
    pub jsonrpc: String,
    pub method: String,
    pub params: ContextExitedParams,
}

impl Notification {
    pub const CONTEXT_EXITED: &'static str = "context_exited";

    /// The `context_exited` notification carrying `params`.
    pub fn context_exited(params: ContextExitedParams) -> (r: Notification)
        ensures
            r.jsonrpc@ == JSONRPC_VERSION@,
            r.method@ == "context_exited"@,
            r.params == params,
    {
        Notification { jsonrpc: owned(JSONRPC_VERSION), method: owned("context_exited"), params }
    }
}

/// `initialize` parameters.
#[derive(Debug, Clone)]
pub struct InitParams {
    pub protocol_version: String,
}

/// `initialize` result.
#[derive(Debug, Clone)]
pub struct InitResult {
    pub self_context_id: ContextId,
}

/// `spawn_agent` parameters.
#[derive(Debug, Clone)]
pub struct SpawnAgentParams {
    pub argv: Vec<String>,
    pub env: HashMap<String, String>,
    pub cwd: Option<String>,
    pub name: Option<String>,
}

/// `spawn_agent` result.
#[derive(Debug, Clone)]
pub struct SpawnAgentResult {
    pub context_id: ContextId,
}

/// `write` parameters; `data` is base64-encoded stdin bytes.
#[derive(Debug, Clone)]
pub struct WriteParams {
    pub context_id: ContextId,
    pub data: String,
}

/// `capture` parameters: how many of the last lines to read.
#[derive(Debug, Clone)]
pub struct CaptureParams {
    pub context_id: ContextId,
    pub lines: u32,
}

/// `capture` result.
#[derive(Debug, Clone)]
pub struct CaptureResult {
    pub data: String,
}

/// `kill` parameters.
#[derive(Debug, Clone)]
pub struct KillParams {
    pub context_id: ContextId,
}

/// `list` parameters (none).
#[derive(Debug, Clone)]
pub struct ListParams {}

impl Default for ListParams {
    fn default() -> (r: Self) {
        ListParams {  }
    }
}

/// `list` result.
#[derive(Debug, Clone)]
pub struct ListResult {
    pub contexts: Vec<ContextInfo>,
}

/// What `list` reports of a context.
#[derive(Debug, Clone)]
pub struct ContextInfo {
    pub id: ContextId,
    pub name: String,
    pub status: ContextStatus,
}

/// Life state of a context.
#[derive(Debug, Clone, Copy, PartialEq, Eq, Structural)]
pub enum ContextStatus {
    Running,
    Exited,
    Failed,
}

/// `context_exited` parameters.
#[derive(Debug, Clone)]
pub struct ContextExitedParams {
    pub context_id: ContextId,
    pub exit_code: i32,
}

} // verus!
