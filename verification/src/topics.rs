//! Key expressions of the lab's pub/sub topics.
//!
//! All topics follow the format: `nlink-lab/{lab-name}/{category}/...`
use vstd::prelude::*;
use crate::text::{push_str, to_chars, starts_with, starts_with_chars, before_first, find_char};

verus! {

/// `nlink-lab/{lab}` followed by `tail`.
pub open spec fn lab_topic(lab: Seq<char>, tail: Seq<char>) -> Seq<char> {
    "nlink-lab/"@ + lab + tail
}

fn topic(lab: &str, tail: &str) -> (s: String)
    ensures
        s@ == lab_topic(lab@, tail@),
{
    let mut s = String::new();
    push_str(&mut s, "nlink-lab/");
    push_str(&mut s, lab);
    push_str(&mut s, tail);
    s
}

/// Topology state (published on startup and changes).
pub fn topology(lab: &str) -> (s: String)
    ensures
        s@ == lab_topic(lab@, "/topology"@),
{
    topic(lab, "/topology")
}

/// Backend health/liveness status.
pub fn health(lab: &str) -> (s: String)
    ensures
        s@ == lab_topic(lab@, "/health"@),
{
    topic(lab, "/health")
}

/// Per-interface metrics (high frequency, best-effort).
pub fn metrics_iface(lab: &str, node: &str, iface: &str) -> (s: String)
    ensures
        s@ == lab_topic(lab@, "/metrics/"@ + node@ + "/"@ + iface@),
{
    let mut s = String::new();
    push_str(&mut s, "nlink-lab/");
    push_str(&mut s, lab);
    push_str(&mut s, "/metrics/");
    push_str(&mut s, node);
    push_str(&mut s, "/");
    push_str(&mut s, iface);
    s
}

/// Full metrics snapshot (all nodes, periodic).
pub fn metrics_snapshot(lab: &str) -> (s: String)
    ensures
        s@ == lab_topic(lab@, "/metrics/snapshot"@),
{
    topic(lab, "/metrics/snapshot")
}

/// Lab events (interface state changes, process exits).
pub fn events(lab: &str) -> (s: String)
    ensures
        s@ == lab_topic(lab@, "/events"@),
{
    topic(lab, "/events")
}

/// RPC: execute command in a node.
pub fn rpc_exec(lab: &str) -> (s: String)
    ensures
        s@ == lab_topic(lab@, "/rpc/exec"@),
{
    topic(lab, "/rpc/exec")
}

/// RPC: modify impairment on an interface.
pub fn rpc_impairment(lab: &str) -> (s: String)
    ensures
        s@ == lab_topic(lab@, "/rpc/impairment"@),
{
    topic(lab, "/rpc/impairment")
}

/// RPC: get lab status summary.
pub fn rpc_status(lab: &str) -> (s: String)
    ensures
        s@ == lab_topic(lab@, "/rpc/status"@),
{
    topic(lab, "/rpc/status")
}

/// Wildcard: subscribe to all labs' topology updates.
pub fn all_topologies() -> (s: &'static str)
    ensures
        s@ == "nlink-lab/*/topology"@,
{
    "nlink-lab/*/topology"
}

/// Wildcard: subscribe to all labs' health status.
pub fn all_health() -> (s: &'static str)
    ensures
        s@ == "nlink-lab/*/health"@,
{
    "nlink-lab/*/health"
}

/// The lab named by a key expression: the segment after `nlink-lab/`, up
/// to the next `/`, where it is not empty.
pub open spec fn lab_of_key(key: Seq<char>) -> Option<Seq<char>> {
    if starts_with(key, "nlink-lab/"@) && before_first(key.skip("nlink-lab/"@.len() as int), '/').len() > 0 {
        Some(before_first(key.skip("nlink-lab/"@.len() as int), '/'))
    } else {
        None
    }
}

/// Extract the lab name from a topic key expression.
///
/// Returns `None` if the key doesn't match the expected format
/// `nlink-lab/{lab-name}/...` (an empty lab name does not match).
pub fn extract_lab_name(key_expr: &str) -> (r: Option<&str>)
    ensures
        match lab_of_key(key_expr@) {
            Some(l) => r matches Some(s) && s@ == l,
            None => r is None,
        },
{
    let cs = to_chars(key_expr);
    let prefix = to_chars("nlink-lab/");
    if !starts_with_chars(cs.as_slice(), prefix.as_slice()) {
        return None;
    }
    let from = prefix.len();
    let rest = crate::text::skip_chars(cs.as_slice(), from);
    let to = match find_char(rest.as_slice(), '/') {
        Some(i) => cs.len() - (rest.len() - i),
        None => cs.len(),
    };
    if to == from {
        proof {
            assert(rest@ == key_expr@.skip(from as int));
            if rest@.contains('/') {
                assert(before_first(rest@, '/').len() == to - from);
            }
        }
        return None;
    }
    proof {
        assert(rest@ == key_expr@.skip(from as int));
        if !rest@.contains('/') {
            assert(key_expr@.subrange(from as int, to as int) =~= rest@);
        } else {
            assert(key_expr@.subrange(from as int, to as int) =~= rest@.take(to - from));
        }
    }
    Some(key_expr.substring_char(from, to))
}

} // verus!
