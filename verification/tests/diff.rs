use nlink_lab::builder::Lab;
use nlink_lab::diff::diff_topologies;
use nlink_lab::types::{NetworkImpairment, Topology};

#[test]
fn test_identical_topologies() {
    let topo = Lab::new("test")
        .node("a", |n| n)
        .node("b", |n| n)
        .link("a:eth0", "b:eth0", |l| l.addresses("10.0.0.1/24", "10.0.0.2/24"))
        .build();
    let diff = diff_topologies(&topo, &topo);
    assert!(diff.is_empty());
}

#[test]
fn test_node_added() {
    let current = Lab::new("test")
        .node("a", |n| n)
        .node("b", |n| n)
        .link("a:eth0", "b:eth0", |l| l)
        .build();
    let desired = Lab::new("test")
        .node("a", |n| n)
        .node("b", |n| n)
        .node("c", |n| n)
        .link("a:eth0", "b:eth0", |l| l)
        .link("b:eth1", "c:eth0", |l| l)
        .build();
    let diff = diff_topologies(&current, &desired);
    assert_eq!(diff.nodes_added, vec!["c"]);
    assert_eq!(diff.links_added.len(), 1);
    assert!(diff.nodes_removed.is_empty());
}

#[test]
fn test_node_removed() {
    let current = Lab::new("test")
        .node("a", |n| n)
        .node("b", |n| n)
        .node("c", |n| n)
        .link("a:eth0", "b:eth0", |l| l)
        .link("b:eth1", "c:eth0", |l| l)
        .build();
    let desired = Lab::new("test")
        .node("a", |n| n)
        .node("b", |n| n)
        .link("a:eth0", "b:eth0", |l| l)
        .build();
    let diff = diff_topologies(&current, &desired);
    assert_eq!(diff.nodes_removed, vec!["c"]);
    assert_eq!(diff.links_removed.len(), 1);
}

#[test]
fn test_impairment_changed() {
    let current = Lab::new("test")
        .node("a", |n| n)
        .node("b", |n| n)
        .link("a:eth0", "b:eth0", |l| l)
        .impair("a:eth0", |i| i.delay("10ms"))
        .build();
    let desired = Lab::new("test")
        .node("a", |n| n)
        .node("b", |n| n)
        .link("a:eth0", "b:eth0", |l| l)
        .impair("a:eth0", |i| i.delay("50ms"))
        .build();
    let diff = diff_topologies(&current, &desired);
    assert_eq!(diff.impairments_changed.len(), 1);
    assert_eq!(diff.impairments_changed[0].endpoint, "a:eth0");
}

#[test]
fn test_display() {
    let current = Lab::new("test")
        .node("a", |n| n)
        .node("b", |n| n)
        .link("a:eth0", "b:eth0", |l| l)
        .build();
    let desired = Lab::new("test")
        .node("a", |n| n)
        .node("b", |n| n)
        .node("c", |n| n)
        .link("a:eth0", "b:eth0", |l| l)
        .build();
    let diff = diff_topologies(&current, &desired);
    let output = diff.to_text();
    assert!(output.contains("+ add node: c"));
}

#[test]
fn test_route_and_sysctl_changes_are_sorted() {
    let current = Lab::new("t")
        .node("a", |n| {
            n.route("10.0.2.0/24", |r| r.via("10.0.0.9"))
                .route("10.0.0.0/24", |r| r.via("10.0.0.1"))
                .sysctl("net.core.rmem_max", "16777216")
                .sysctl("z.removed", "1")
        })
        .build();
    let desired = Lab::new("t")
        .node("a", |n| {
            n.route("10.0.1.0/24", |r| r.via("10.0.0.1"))
                .route("10.0.0.0/24", |r| r.via("10.0.0.2"))
                .sysctl("net.core.rmem_max", "33554432")
                .sysctl("a.added", "1")
        })
        .build();
    let diff = diff_topologies(&current, &desired);
    let dests: Vec<&str> = diff.routes_changed.iter().map(|r| r.dest.as_str()).collect();
    assert_eq!(dests, vec!["10.0.0.0/24", "10.0.1.0/24", "10.0.2.0/24"]);
    assert!(diff.routes_changed[0].was_present && diff.routes_changed[0].desired.is_some());
    assert!(!diff.routes_changed[1].was_present);
    assert!(diff.routes_changed[2].desired.is_none());
    assert_eq!(diff.sysctls_changed.len(), 1);
    let s = &diff.sysctls_changed[0];
    assert_eq!(s.added, vec![("a.added".to_string(), "1".to_string())]);
    assert_eq!(
        s.changed,
        vec![("net.core.rmem_max".to_string(), "16777216".to_string(), "33554432".to_string())]
    );
    assert_eq!(s.removed, vec!["z.removed".to_string()]);
    assert_eq!(diff.change_count(), 4);
}

#[test]
fn test_impairment_added_and_removed() {
    let current = Lab::new("t").impair("x:eth0", |i| i.loss("1%")).build();
    let desired = Lab::new("t").impair("y:eth0", |i| i.loss("1%")).build();
    let diff = diff_topologies(&current, &desired);
    assert_eq!(diff.impairments_added.len(), 1);
    assert_eq!(diff.impairments_added[0].0, "y:eth0");
    assert_eq!(diff.impairments_removed, vec!["x:eth0".to_string()]);
    assert!(diff.impairments_changed.is_empty());
}

fn lan(name: &str) -> Topology {
    Lab::new(name)
        .node("a", |n| n)
        .node("b", |n| n)
        .network("n", |n| n.member("a:eth0").member("b:eth0").subnet("10.0.0.0/24"))
        .build()
}

/// The topology with per-pair impairments `(src, dst, delay, loss)` added
/// to network `n`.
fn with_impairs(mut topo: Topology, rules: &[(&str, &str, Option<&str>, Option<&str>)]) -> Topology {
    let mut net = topo.networks.get("n").unwrap().clone();
    for (src, dst, delay, loss) in rules {
        net.impairments.push(NetworkImpairment {
            src: src.to_string(),
            dst: dst.to_string(),
            delay: delay.map(|s| s.to_string()),
            jitter: None,
            loss: loss.map(|s| s.to_string()),
            rate: None,
            corrupt: None,
            reorder: None,
            rate_cap: None,
        });
    }
    topo.networks.insert("n".to_string(), net);
    topo
}

#[test]
fn test_network_impair_added() {
    let current = lan("t");
    let desired = with_impairs(lan("t"), &[("a", "b", Some("50ms"), None)]);
    let diff = diff_topologies(&current, &desired);
    assert_eq!(diff.network_impairs_changed.len(), 1);
    let change = &diff.network_impairs_changed[0];
    assert_eq!(change.network, "n");
    assert_eq!(change.src_node, "a");
    let rules = change.desired.as_ref().expect("expected rules");
    assert_eq!(rules.len(), 1);
    assert_eq!(rules[0].dst, "b");
}

#[test]
fn test_network_impair_modified() {
    let current = with_impairs(lan("t"), &[("a", "b", Some("50ms"), None)]);
    let desired = with_impairs(lan("t"), &[("a", "b", Some("100ms"), None)]);
    let diff = diff_topologies(&current, &desired);
    assert_eq!(diff.network_impairs_changed.len(), 1);
}

#[test]
fn test_network_impair_removed() {
    let current = with_impairs(lan("t"), &[("a", "b", Some("50ms"), None)]);
    let desired = lan("t");
    let diff = diff_topologies(&current, &desired);
    assert_eq!(diff.network_impairs_changed.len(), 1);
    assert!(diff.network_impairs_changed[0].desired.is_none());
}

#[test]
fn test_network_impair_no_change_is_noop() {
    let rules = [("a", "b", Some("50ms"), Some("1%")), ("b", "a", Some("50ms"), Some("1%"))];
    let current = with_impairs(lan("t"), &rules);
    let desired = with_impairs(lan("t"), &rules);
    let diff = diff_topologies(&current, &desired);
    assert!(
        diff.network_impairs_changed.is_empty(),
        "identical topology should produce no network-impair changes, got {:?}",
        diff.network_impairs_changed
    );
    assert!(diff.is_empty());
}

fn pair(route_a: Option<(&str, &str, Option<u32>)>) -> Topology {
    Lab::new("t")
        .node("a", |n| match route_a {
            Some((dest, gw, metric)) => n.route(dest, |r| match metric {
                Some(m) => r.via(gw).metric(m),
                None => r.via(gw),
            }),
            None => n,
        })
        .node("b", |n| n)
        .link("a:eth0", "b:eth0", |l| l.addresses("10.0.0.1/24", "10.0.0.2/24"))
        .build()
}

#[test]
fn test_route_added() {
    let current = pair(None);
    let desired = pair(Some(("192.168.1.0/24", "10.0.0.2", None)));
    let diff = diff_topologies(&current, &desired);
    assert_eq!(diff.routes_changed.len(), 1);
    let r = &diff.routes_changed[0];
    assert_eq!(r.node, "a");
    assert_eq!(r.dest, "192.168.1.0/24");
    assert!(!r.was_present);
    assert!(r.desired.is_some());
}

#[test]
fn test_route_removed() {
    let current = pair(Some(("192.168.1.0/24", "10.0.0.2", None)));
    let desired = pair(None);
    let diff = diff_topologies(&current, &desired);
    assert_eq!(diff.routes_changed.len(), 1);
    let r = &diff.routes_changed[0];
    assert!(r.was_present);
    assert!(r.desired.is_none());
}

#[test]
fn test_route_changed() {
    let current = pair(Some(("192.168.1.0/24", "10.0.0.2", None)));
    let desired = pair(Some(("192.168.1.0/24", "10.0.0.2", Some(200))));
    let diff = diff_topologies(&current, &desired);
    assert_eq!(diff.routes_changed.len(), 1);
    let r = &diff.routes_changed[0];
    assert!(r.was_present);
    let new = r.desired.as_ref().unwrap();
    assert_eq!(new.metric, Some(200));
}

#[test]
fn test_route_no_change() {
    let current = pair(Some(("192.168.1.0/24", "10.0.0.2", None)));
    let desired = pair(Some(("192.168.1.0/24", "10.0.0.2", None)));
    let diff = diff_topologies(&current, &desired);
    assert!(diff.routes_changed.is_empty());
    assert!(diff.is_empty());
}

fn with_sysctls(entries: &[(&str, &str)]) -> Topology {
    Lab::new("t")
        .node("a", |mut n| {
            for (k, v) in entries {
                n = n.sysctl(k, v);
            }
            n
        })
        .build()
}

#[test]
fn test_sysctl_added() {
    let current = with_sysctls(&[]);
    let desired = with_sysctls(&[("net.ipv4.ip_forward", "1")]);
    let diff = diff_topologies(&current, &desired);
    assert_eq!(diff.sysctls_changed.len(), 1);
    let s = &diff.sysctls_changed[0];
    assert_eq!(s.node, "a");
    assert_eq!(s.added.len(), 1);
    assert!(s.changed.is_empty());
    assert!(s.removed.is_empty());
}

#[test]
fn test_sysctl_changed_value() {
    let current = with_sysctls(&[("net.core.rmem_max", "16777216")]);
    let desired = with_sysctls(&[("net.core.rmem_max", "33554432")]);
    let diff = diff_topologies(&current, &desired);
    assert_eq!(diff.sysctls_changed.len(), 1);
    let s = &diff.sysctls_changed[0];
    assert_eq!(s.changed.len(), 1);
    assert_eq!(s.changed[0].2, "33554432");
}

#[test]
fn test_sysctl_removed_does_not_block() {
    let current = with_sysctls(&[("net.core.rmem_max", "16777216")]);
    let desired = with_sysctls(&[]);
    let diff = diff_topologies(&current, &desired);
    assert_eq!(diff.sysctls_changed.len(), 1);
    let s = &diff.sysctls_changed[0];
    assert_eq!(s.removed.len(), 1);
    assert!(s.added.is_empty());
    assert!(s.changed.is_empty());
}

#[test]
fn test_sysctl_no_change_is_noop() {
    let entries = [("net.ipv4.ip_forward", "1"), ("net.core.rmem_max", "16777216")];
    let current = with_sysctls(&entries);
    let desired = with_sysctls(&entries);
    let diff = diff_topologies(&current, &desired);
    assert!(diff.sysctls_changed.is_empty());
}

#[test]
fn network_impair_rate_cap_change_is_detected() {
    let current = with_impairs(lan("t"), &[("a", "b", Some("50ms"), None)]);
    let mut desired = current.clone();
    let mut net = desired.networks.get("n").unwrap().clone();
    net.impairments[0].rate_cap = Some("10mbit".to_string());
    desired.networks.insert("n".to_string(), net);
    let diff = diff_topologies(&current, &desired);
    assert_eq!(diff.network_impairs_changed.len(), 1);
    assert_eq!(diff.network_impairs_changed[0].src_node, "a");
}
