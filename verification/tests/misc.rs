use nlink_lab::benchmark::iperf3_client_args;
use nlink_lab::error::Error;
use nlink_lab::messages::{ImpairmentRequest, LabEvent, LabEventKind, StatusResponse, WIRE_VERSION};
use nlink_lab::op::NsRef;
use nlink_lab::rollback::{Cleanup, Journal, Undo};

#[test]
fn test_iperf3_client_args_defaults() {
    let args = iperf3_client_args("10.0.0.2", "5", None, false);
    assert_eq!(args, vec!["-c", "10.0.0.2", "-t", "5", "-J"]);
    let args = iperf3_client_args("10.0.0.2", "5", Some(1), false);
    assert_eq!(args, vec!["-c", "10.0.0.2", "-t", "5", "-J"]);
}

#[test]
fn test_iperf3_client_args_streams_and_udp() {
    let args = iperf3_client_args("10.0.0.2", "10", Some(4), true);
    assert_eq!(args, vec!["-c", "10.0.0.2", "-t", "10", "-J", "-P", "4", "-u"]);
}

#[test]
fn ephemeral_journal_records_and_discards() {
    let mut j = Journal::ephemeral("t");
    j.record(Undo::FreeSubnets { lab: "t".into() });
    assert_eq!(j.entries().len(), 1);
    j.discard();
    assert!(j.is_empty());
    assert!(j.unwind_order().is_empty());
}

#[test]
fn journal_keeps_lab_and_records_in_order() {
    let mut j = Journal::ephemeral("lab");
    j.record(Undo::DeleteNamespace { ns: "a".into() });
    let _ = j.unwind_order();
    j.record(Undo::RemoveHosts { lab: "lab".into() });
    j.record(Undo::KillProcess { pid: 3, starttime: None });
    let seen: Vec<String> = j.entries().iter().map(|u| format!("{u:?}")).collect();
    assert_eq!(seen.len(), 3);
    assert!(seen[0].starts_with("DeleteNamespace"));
    assert!(seen[1].starts_with("RemoveHosts"));
    assert!(seen[2].starts_with("KillProcess"));
    assert_eq!(j.lab(), "lab");
    j.discard();
    assert_eq!(j.lab(), "lab");
    assert!(j.is_empty());
}

#[test]
fn unwind_is_newest_first() {
    let mut j = Journal::new("lab", "/var/lib/lab");
    assert_eq!(j.path().map(|p| p.as_str()), Some("/var/lib/lab/journal.json"));
    j.record(Undo::DeleteNamespace { ns: "a".into() });
    j.record(Undo::DeleteLink { ns: NsRef::Named { name: "a".into() }, iface: "eth0".into() });
    j.record(Undo::KillProcess { pid: 7, starttime: Some(9) });
    let order: Vec<String> = j.unwind_order().iter().map(|u| format!("{u:?}")).collect();
    assert!(order[0].starts_with("KillProcess"));
    assert!(order[1].starts_with("DeleteLink"));
    assert!(order[2].starts_with("DeleteNamespace"));
    let sync: Vec<String> = j.sync_unwind_order().iter().map(|u| format!("{u:?}")).collect();
    assert_eq!(sync.len(), 2);
    assert!(sync[0].starts_with("KillProcess"));
    assert!(sync[1].starts_with("DeleteNamespace"));
}

#[test]
fn pending_journal_path() {
    assert_eq!(Journal::pending_path("/s", true).as_deref(), Some("/s/journal.json"));
    assert_eq!(Journal::pending_path("/s", false), None);
}

#[test]
fn defaults_stamp_current_wire_version() {
    let s = StatusResponse { lab_name: "lab".into(), ..Default::default() };
    assert_eq!(s.wire_version, WIRE_VERSION);
    let ev = LabEvent::new("lab", 1, LabEventKind::InterfaceUp { node: "a".into(), interface: "eth0".into() });
    assert_eq!(ev.wire_version, WIRE_VERSION);
    assert_eq!(ev.lab_name, "lab");
    assert_eq!(ImpairmentRequest::default().wire_version, WIRE_VERSION);
}

#[test]
fn impairment_request_emptiness() {
    let mut req = ImpairmentRequest::default();
    assert!(req.is_empty());
    req.clear = true;
    assert!(req.is_empty());
    req.rate = Some("100mbit".into());
    assert!(!req.is_empty());
}

#[test]
fn ns_ref_accessors() {
    let n = NsRef::Named { name: "lab-a".into() };
    assert_eq!(n.name(), Some("lab-a"));
    assert_eq!(n.container_id(), None);
    let c = NsRef::Container { id: "abc".into(), pid: 3 };
    assert_eq!(c.container_id(), Some("abc"));
    assert_eq!(NsRef::Root.name(), None);
}

#[test]
fn error_messages() {
    assert_eq!(Error::deploy_failed("x".into()).to_text(), "deploy failed: x");
    assert_eq!(Error::invalid_topology("y".into()).to_text(), "invalid topology: y");
    assert!(Error::NodeNotFound { name: "a".into() }.is_not_found());
    assert!(Error::NotFound { name: "a".into() }.is_not_found());
    assert!(!Error::Validation("v".into()).is_not_found());
    assert_eq!(
        Error::InvalidEndpoint { endpoint: "ab".into() }.to_text(),
        "invalid endpoint 'ab': expected 'node:interface' format"
    );
}

#[test]
fn cleanup_guard_records_and_disarms() {
    let mut c = Cleanup::new();
    assert!(c.armed);
    c.add_namespace("lab-a".to_string());
    c.add_container("c0ffee".to_string());
    c.set_runtime("podman");
    c.set_dns_lab("lab".to_string());
    assert_eq!(c.namespaces, vec!["lab-a".to_string()]);
    assert_eq!(c.containers, vec!["c0ffee".to_string()]);
    assert_eq!(c.runtime_binary.as_deref(), Some("podman"));
    assert_eq!(c.dns_lab.as_deref(), Some("lab"));
    assert!(!c.wifi_loaded);
    c.disarm();
    assert!(!c.armed);
    assert_eq!(c.namespaces.len(), 1);
}
