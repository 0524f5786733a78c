//! Message types of the lab's pub/sub and query/reply traffic.
//!
//! Top-level messages carry a `wire_version`; their `Default` stamps
//! [`WIRE_VERSION`], so a message built from a default is tagged with the
//! current version.
use vstd::prelude::*;

verus! {

/// Current wire-format version stamped into every top-level message.
///
/// `0` on a decoded message means "sent by a peer that predates
/// versioning".
pub const WIRE_VERSION: u32 = 1;

/// Full topology update (published on startup and changes).
#[derive(Debug, Clone)]
pub struct TopologyUpdate {
    /// Wire-format version of the sender (`0` = pre-versioning backend).
    pub wire_version: u32,
    pub lab_name: String,
    pub timestamp: u64,
    pub node_count: usize,
    pub link_count: usize,
    /// Serialized topology (JSON).
    pub topology_json: String,
}

impl Default for TopologyUpdate {
    fn default() -> (r: Self)
        ensures
            r.wire_version == WIRE_VERSION,
            r.lab_name@.len() == 0,
            r.timestamp == 0,
            r.node_count == 0,
            r.link_count == 0,
            r.topology_json@.len() == 0,
    {
        TopologyUpdate {
            wire_version: WIRE_VERSION,
            lab_name: String::new(),
            timestamp: 0,
            node_count: 0,
            link_count: 0,
            topology_json: String::new(),
        }
    }
}

/// Backend health/liveness status.
#[derive(Debug, Clone)]
pub struct HealthStatus {
    /// Wire-format version of the sender (`0` = pre-versioning backend).
    pub wire_version: u32,
    pub lab_name: String,
    pub timestamp: u64,
    pub node_count: usize,
    pub namespace_count: usize,
    pub container_count: usize,
    pub pid_count: usize,
    pub uptime_secs: u64,
}

impl Default for HealthStatus {
    fn default() -> (r: Self)
        ensures
            r.wire_version == WIRE_VERSION,
            r.lab_name@.len() == 0,
            r.timestamp == 0,
            r.node_count == 0,
            r.namespace_count == 0,
            r.container_count == 0,
            r.pid_count == 0,
            r.uptime_secs == 0,
    {
        HealthStatus {
            wire_version: WIRE_VERSION,
            lab_name: String::new(),
            timestamp: 0,
            node_count: 0,
            namespace_count: 0,
            container_count: 0,
            pid_count: 0,
            uptime_secs: 0,
        }
    }
}

/// Lab event types.
#[derive(Debug, Clone)]
pub enum LabEventKind {
    InterfaceUp { node: String, interface: String },
    InterfaceDown { node: String, interface: String },
    /// A background process tracked by the lab was alive at the previous
    /// sample and is gone now. `exit_code` is known where the daemon could
    /// collect it; a signal death reads `128 + signo`.
    ProcessExited { node: String, pid: u32, exit_code: Option<i32> },
}

/// Lab event (interface state change, process exit).
#[derive(Debug, Clone)]
pub struct LabEvent {
    /// Wire-format version of the sender (`0` = pre-versioning backend).
    pub wire_version: u32,
    pub lab_name: String,
    pub timestamp: u64,
    pub kind: LabEventKind,
}

impl LabEvent {
    /// Build an event stamped with the current [`WIRE_VERSION`].
    pub fn new(lab_name: &str, timestamp: u64, kind: LabEventKind) -> (e: Self)
        ensures
            e.wire_version == WIRE_VERSION,
            e.lab_name@ == lab_name@,
            e.timestamp == timestamp,
            e.kind == kind,
    {
        LabEvent { wire_version: WIRE_VERSION, lab_name: crate::text::owned(lab_name), timestamp, kind }
    }
}

/// Request to execute a command in a node.
#[derive(Debug, Clone, Default)]
pub struct ExecRequest {
    pub node: String,
    pub cmd: String,
    pub args: Vec<String>,
}

/// Response from command execution.
#[derive(Debug, Clone)]
pub struct ExecResponse {
    /// Wire-format version of the sender (`0` = pre-versioning backend).
    pub wire_version: u32,
    pub success: bool,
    pub exit_code: i32,
    pub stdout: String,
    pub stderr: String,
}

impl Default for ExecResponse {
    fn default() -> (r: Self)
        ensures
            r.wire_version == WIRE_VERSION,
            !r.success,
            r.exit_code == 0,
            r.stdout@.len() == 0,
            r.stderr@.len() == 0,
    {
        ExecResponse {
            wire_version: WIRE_VERSION,
            success: false,
            exit_code: 0,
            stdout: String::new(),
            stderr: String::new(),
        }
    }
}

/// Request to modify impairment on an interface.
///
/// Netem knobs that are `None` are left unset on the interface. A request
/// with every knob `None` and `clear == false` is rejected by the backend
/// rather than guessed at; `clear` removes the impairment entirely.
#[derive(Debug, Clone)]
pub struct ImpairmentRequest {
    /// Wire-format version of the sender (`0` = pre-versioning client).
    pub wire_version: u32,
    pub node: String,
    pub interface: String,
    pub delay: Option<String>,
    pub jitter: Option<String>,
    pub loss: Option<String>,
    /// Bandwidth cap (e.g. `"100mbit"`), applied as netem `rate`.
    pub rate: Option<String>,
    pub corrupt: Option<String>,
    pub reorder: Option<String>,
    /// Remove the impairment on `node:interface` instead of setting one.
    pub clear: bool,
}

impl Default for ImpairmentRequest {
    fn default() -> (r: Self)
        ensures
            r.wire_version == WIRE_VERSION,
            r.node@.len() == 0,
            r.interface@.len() == 0,
            r.delay is None,
            r.jitter is None,
            r.loss is None,
            r.rate is None,
            r.corrupt is None,
            r.reorder is None,
            !r.clear,
    {
        ImpairmentRequest {
            wire_version: WIRE_VERSION,
            node: String::new(),
            interface: String::new(),
            delay: None,
            jitter: None,
            loss: None,
            rate: None,
            corrupt: None,
            reorder: None,
            clear: false,
        }
    }
}

impl ImpairmentRequest {
    /// `true` when no netem knob is set (regardless of `clear`).
    pub fn is_empty(&self) -> (b: bool)
        ensures
            b == (self.delay is None && self.jitter is None && self.loss is None
                && self.rate is None && self.corrupt is None && self.reorder is None),
    {
        self.delay.is_none() && self.jitter.is_none() && self.loss.is_none() && self.rate.is_none()
            && self.corrupt.is_none() && self.reorder.is_none()
    }
}

/// Response from impairment modification.
#[derive(Debug, Clone)]
pub struct ImpairmentResponse {
    /// Wire-format version of the sender (`0` = pre-versioning backend).
    pub wire_version: u32,
    pub success: bool,
    pub message: String,
}

impl Default for ImpairmentResponse {
    fn default() -> (r: Self)
        ensures
            r.wire_version == WIRE_VERSION,
            !r.success,
            r.message@.len() == 0,
    {
        ImpairmentResponse { wire_version: WIRE_VERSION, success: false, message: String::new() }
    }
}

/// Lab status response. The status RPC takes no request payload.
#[derive(Debug, Clone)]
pub struct StatusResponse {
    /// Wire-format version of the sender (`0` = pre-versioning backend).
    pub wire_version: u32,
    pub lab_name: String,
    pub node_count: usize,
    pub namespace_count: usize,
    pub container_count: usize,
    pub uptime_secs: u64,
    pub nodes: Vec<String>,
}

impl Default for StatusResponse {
    fn default() -> (r: Self)
        ensures
            r.wire_version == WIRE_VERSION,
            r.lab_name@.len() == 0,
            r.node_count == 0,
            r.namespace_count == 0,
            r.container_count == 0,
            r.uptime_secs == 0,
            r.nodes@.len() == 0,
    {
        StatusResponse {
            wire_version: WIRE_VERSION,
            lab_name: String::new(),
            node_count: 0,
            namespace_count: 0,
            container_count: 0,
            uptime_secs: 0,
            nodes: Vec::new(),
        }
    }
}

/// Counters of a single interface.
#[derive(Debug, Clone, Default)]
pub struct InterfaceMetrics {
    pub name: String,
    pub state: String,
    /// Receive rate in **bits** per second.
    pub rx_bps: u64,
    /// Transmit rate in **bits** per second.
    pub tx_bps: u64,
    pub rx_pps: u64,
    pub tx_pps: u64,
    pub rx_errors: u64,
    pub tx_errors: u64,
    pub rx_dropped: u64,
    pub tx_dropped: u64,
    pub tc_drops: u64,
    pub tc_qlen: u32,
}

} // verus!
