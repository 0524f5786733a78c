use nlink_lab::builder::Lab;
use nlink_lab::diff::SysctlChange;
use nlink_lab::error::Error;
use nlink_lab::map::StrMap;
use nlink_lab::reconcile::{impair_dst_ips, impair_targets, sysctl_writes_of};
use nlink_lab::routes::AddrFacts;
use nlink_lab::types::{Network, NetworkImpairment};

fn facts() -> StrMap<AddrFacts> {
    let mut m = StrMap::new();
    for text in ["10.0.0.1", "10.0.0.2", "10.0.0.3"] {
        m.insert(text.to_string(), AddrFacts { v6: Some(false), network: None, shown: Some(text.to_string()) });
    }
    m
}

fn lan() -> Network {
    let topo = Lab::new("t")
        .network("lan", |n| {
            n.member("a:eth0")
                .member("b:eth0")
                .member("b:eth1")
                .member("c:eth0")
                .port("a:eth0", |p| p.address("10.0.0.1/24"))
                .port("b:eth0", |p| p.address("10.0.0.2/24"))
                .port("b:eth1", |p| p.address("10.0.0.3/24"))
                .port("c:eth0", |p| p.address("10.0.0.9"))
        })
        .build();
    topo.networks.get("lan").unwrap().clone()
}

fn rule(src: &str, dst: &str) -> NetworkImpairment {
    NetworkImpairment {
        src: src.to_string(),
        dst: dst.to_string(),
        delay: Some("10ms".to_string()),
        jitter: None,
        loss: None,
        rate: None,
        corrupt: None,
        reorder: None,
        rate_cap: None,
    }
}

#[test]
fn sysctl_writes_are_added_then_changed_values() {
    let change = SysctlChange {
        node: "r1".to_string(),
        added: vec![("net.ipv4.ip_forward".to_string(), "1".to_string())],
        changed: vec![("net.ipv6.conf.all.forwarding".to_string(), "0".to_string(), "1".to_string())],
        removed: vec!["net.core.somaxconn".to_string()],
    };
    assert_eq!(
        sysctl_writes_of(&change),
        vec![
            ("net.ipv4.ip_forward".to_string(), "1".to_string()),
            ("net.ipv6.conf.all.forwarding".to_string(), "1".to_string()),
        ]
    );
}

#[test]
fn impair_targets_take_the_first_member_of_each_node() {
    let t = impair_targets(&lan(), "b", &facts());
    assert_eq!(t.iface.as_deref(), Some("eth0"));
    assert_eq!(t.node_ips.len(), 2);
    assert_eq!(t.node_ips.get("a"), Some(&(false, "10.0.0.1".to_string())));
    assert_eq!(t.node_ips.get("b"), Some(&(false, "10.0.0.2".to_string())));
    // c's port address has no prefix, so c has no address.
    assert!(t.node_ips.get("c").is_none());
    assert!(impair_targets(&lan(), "z", &facts()).iface.is_none());
}

#[test]
fn impair_dst_ips_resolve_in_rule_order() {
    let t = impair_targets(&lan(), "a", &facts());
    let ips = impair_dst_ips("lan", &vec![rule("a", "b"), rule("a", "a")], &t).unwrap();
    assert_eq!(ips, vec![(false, "10.0.0.2".to_string()), (false, "10.0.0.1".to_string())]);
}

#[test]
fn impair_dst_without_address_fails() {
    let t = impair_targets(&lan(), "a", &facts());
    let err = impair_dst_ips("lan", &vec![rule("a", "b"), rule("a", "c")], &t).unwrap_err();
    assert_eq!(err, Error::DeployFailed("network 'lan': cannot resolve IP for dst node 'c'".to_string()));
}
