use nlink_lab::apply_env::{ApplyEnv, RunningState};
use nlink_lab::builder::Lab;
use nlink_lab::container::ContainerInfo;
use nlink_lab::map::StrMap;
use nlink_lab::op::NsRef;

fn running() -> RunningState {
    let mut names = StrMap::new();
    names.insert("a".to_string(), "t-a".to_string());
    names.insert("b".to_string(), "t-b".to_string());
    let mut containers = StrMap::new();
    containers.insert("b".to_string(), ContainerInfo { id: "cafe".to_string(), name: "t-b".to_string(), pid: 42 });
    containers.insert("c".to_string(), ContainerInfo { id: "beef".to_string(), name: "t-c".to_string(), pid: 7 });
    RunningState {
        name: "t".to_string(),
        runtime_binary: Some("docker".to_string()),
        namespace_names: names,
        containers,
        pids: vec![("a".to_string(), 100)],
        starttimes: vec![(100, 5)],
        exec_pids: StrMap::new(),
        process_logs: Vec::new(),
        mgmt_peers: StrMap::new(),
        dns_injected: true,
        wifi_loaded: false,
    }
}

#[test]
fn deploy_env_needs_a_runtime_only_for_container_nodes() {
    let plain = Lab::new("t").node("a", |n| n).build();
    let env = ApplyEnv::for_deploy(plain, false, false).unwrap();
    assert!(env.runtime.is_none());
    assert_eq!(env.lab, "t");
    assert!(!env.purge);
    let mut boxed = Lab::new("t").node("a", |n| n).build();
    let mut node = boxed.nodes.get("a").unwrap().clone();
    node.image = Some("alpine".to_string());
    boxed.nodes.insert("a".to_string(), node);
    assert!(ApplyEnv::for_deploy(boxed.clone(), false, false).is_err());
    let env = ApplyEnv::for_deploy(boxed, false, true).unwrap();
    assert_eq!(env.runtime.unwrap().binary(), "docker");
}

#[test]
fn apply_env_is_seeded_from_the_running_lab() {
    let desired = Lab::new("t").node("a", |n| n).build();
    let env = ApplyEnv::from_running(running(), desired, false, false).unwrap();
    assert_eq!(env.lab, "t");
    assert!(env.purge);
    assert!(env.dns_injected);
    assert_eq!(env.runtime.unwrap().binary(), "docker");
    assert_eq!(env.ns.len(), 3);
    assert_eq!(env.ns.get("a"), Some(&NsRef::Named { name: "t-a".to_string() }));
    assert_eq!(env.ns.get("b"), Some(&NsRef::Container { id: "cafe".to_string(), pid: 42 }));
    assert_eq!(env.ns.get("c"), Some(&NsRef::Container { id: "beef".to_string(), pid: 7 }));
    assert_eq!(env.pids, vec![("a".to_string(), 100)]);
}
