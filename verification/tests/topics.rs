use nlink_lab::topics::{
    all_health, all_topologies, events, extract_lab_name, health, metrics_iface, metrics_snapshot,
    rpc_exec, rpc_impairment, rpc_status, topology,
};

#[test]
fn test_topic_helpers() {
    assert_eq!(topology("dc"), "nlink-lab/dc/topology");
    assert_eq!(health("dc"), "nlink-lab/dc/health");
    assert_eq!(metrics_iface("dc", "spine1", "eth0"), "nlink-lab/dc/metrics/spine1/eth0");
    assert_eq!(rpc_exec("dc"), "nlink-lab/dc/rpc/exec");
}

#[test]
fn test_extract_lab_name() {
    assert_eq!(extract_lab_name("nlink-lab/dc-east/topology"), Some("dc-east"));
    assert_eq!(extract_lab_name("nlink-lab/my-lab/metrics/spine1/eth0"), Some("my-lab"));
    assert_eq!(extract_lab_name("other/prefix"), None);
}

#[test]
fn other_topics() {
    assert_eq!(metrics_snapshot("l"), "nlink-lab/l/metrics/snapshot");
    assert_eq!(events("l"), "nlink-lab/l/events");
    assert_eq!(rpc_impairment("l"), "nlink-lab/l/rpc/impairment");
    assert_eq!(rpc_status("l"), "nlink-lab/l/rpc/status");
    assert_eq!(all_topologies(), "nlink-lab/*/topology");
    assert_eq!(all_health(), "nlink-lab/*/health");
}

#[test]
fn extract_lab_name_round_trips_topics() {
    assert_eq!(extract_lab_name(&topology("x")), Some("x"));
    assert_eq!(extract_lab_name("nlink-lab/"), None);
    assert_eq!(extract_lab_name("nlink-lab/solo"), Some("solo"));
}

#[test]
fn empty_lab_segment_names_no_lab() {
    assert_eq!(extract_lab_name("nlink-lab//topology"), None);
    assert_eq!(extract_lab_name("nlink-lab/"), None);
    assert_eq!(extract_lab_name("nlink-lab/dc-east/topology"), Some("dc-east"));
    assert_eq!(extract_lab_name("nlink-lab/dc"), Some("dc"));
}
