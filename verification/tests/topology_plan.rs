use nlink_lab::error::Error;
use nlink_lab::map::StrMap;
use nlink_lab::netaddr::{network_cidr_v4, network_v4, network_v6};
use nlink_lab::op::Op;
use nlink_lab::topology_plan::{plan_topology, CidrFacts, DeployNames};
use nlink_lab::types::{
    DnsMode, Link, MacvlanConfig, MacvlanMode, Network, Node, PortConfig, Topology, WifiConfig, WifiMode,
};

fn link(a: &str, b: &str) -> Link {
    Link { endpoints: [a.to_string(), b.to_string()], addresses: None, mtu: None }
}

fn lab(nodes: &[&str]) -> Topology {
    let mut t = Topology::named("lab".to_string());
    for n in nodes {
        t.nodes.insert(n.to_string(), Node::empty());
    }
    t
}

fn names_for(t: &Topology) -> DeployNames {
    let mut namespaces = StrMap::new();
    let mut sysctls = StrMap::new();
    let mut mgmt_peers = Vec::new();
    for i in 0..t.nodes.len() {
        let k = t.nodes.key_at(i).clone();
        namespaces.insert(k.clone(), format!("lab-{k}"));
        sysctls.insert(k.clone(), StrMap::new());
        mgmt_peers.push(format!("mg-{i}"));
    }
    let mut bridges = StrMap::new();
    let mut member_peers = StrMap::new();
    for i in 0..t.networks.len() {
        let k = t.networks.key_at(i).clone();
        bridges.insert(k.clone(), format!("br-{k}"));
        let peers = (0..t.networks.value_at(i).members.len()).map(|j| format!("{k}-p{j}")).collect();
        member_peers.insert(k, peers);
    }
    DeployNames {
        namespaces,
        mgmt_bridge: "lab-mgmt0".to_string(),
        mgmt_peers,
        bridges,
        member_peers,
        sysctls,
        radios: 0,
        mgmt_cidr: Ok(CidrFacts { v6: false, addr: 0x0A63_0005, prefix: 24 }),
    }
}

fn ifaces_of(op: &Op) -> Vec<String> {
    match op {
        Op::LinksUp { ifaces, .. } => ifaces.clone(),
        _ => panic!("not a links-up op: {op:?}"),
    }
}

#[test]
fn plans_namespaces_links_bring_up_and_sysctls() {
    let mut t = lab(&["a", "b"]);
    t.links.push(link("a:eth0", "b:eth0"));
    let mut names = names_for(&t);
    let mut fwd = StrMap::new();
    fwd.insert("net.ipv4.ip_forward".to_string(), "1".to_string());
    names.sysctls.insert("a".to_string(), fwd);
    let ops = plan_topology(&t, &[], &names).unwrap();
    assert_eq!(ops.len(), 6);
    assert!(matches!(&ops[0], Op::CreateNamespace { node, ns } if node == "a" && ns == "lab-a"));
    assert!(matches!(&ops[1], Op::CreateNamespace { node, ns } if node == "b" && ns == "lab-b"));
    match &ops[2] {
        Op::CreateVeth { a, b, mtu } => {
            assert_eq!((a.node.as_str(), a.iface.as_str()), ("a", "eth0"));
            assert_eq!((b.node.as_str(), b.iface.as_str()), ("b", "eth0"));
            assert_eq!(*mtu, None);
        }
        other => panic!("unexpected {other:?}"),
    }
    assert_eq!(ifaces_of(&ops[3]), vec!["eth0".to_string(), "lo".to_string()]);
    assert_eq!(ifaces_of(&ops[4]), vec!["eth0".to_string(), "lo".to_string()]);
    match &ops[5] {
        Op::Sysctls { node, entries } => {
            assert_eq!(node, "a");
            assert_eq!(entries.get("net.ipv4.ip_forward"), Some(&"1".to_string()));
        }
        other => panic!("unexpected {other:?}"),
    }
}

#[test]
fn container_nodes_are_named_after_the_prefix() {
    let mut t = lab(&["web"]);
    let mut n = Node::empty();
    n.image = Some("nginx:1".to_string());
    n.pull = Some("always".to_string());
    n.privileged = true;
    t.nodes.insert("web".to_string(), n);
    t.lab.prefix = Some("p".to_string());
    let names = names_for(&t);
    let extra = vec!["host.example:10.0.0.1".to_string()];
    let ops = plan_topology(&t, &extra, &names).unwrap();
    match &ops[0] {
        Op::CreateContainer { node, name, image, pull, opts } => {
            assert_eq!(node, "web");
            assert_eq!(name, "p-web");
            assert_eq!(image, "nginx:1");
            assert_eq!(pull.as_deref(), Some("always"));
            assert!(opts.privileged);
            assert_eq!(opts.extra_hosts, extra);
        }
        other => panic!("unexpected {other:?}"),
    }
}

#[test]
fn mgmt_bridge_takes_the_first_host_address() {
    let mut t = lab(&["a", "b"]);
    t.lab.mgmt_host_reachable = true;
    t.lab.mgmt_subnet = Some("10.99.0.5/24".to_string());
    let names = names_for(&t);
    let ops = plan_topology(&t, &[], &names).unwrap();
    match &ops[2] {
        Op::CreateMgmtBridge { name, ip, prefix } => {
            assert_eq!(name, "lab-mgmt0");
            assert_eq!(*ip, 0x0A63_0001);
            assert_eq!(*prefix, 24);
        }
        other => panic!("unexpected {other:?}"),
    }
    match &ops[3] {
        Op::CreateMgmtVeth { node, peer, bridge, node_ip, prefix } => {
            assert_eq!((node.as_str(), peer.as_str(), bridge.as_str()), ("a", "mg-0", "lab-mgmt0"));
            assert_eq!((*node_ip, *prefix), (0x0A63_0002, 24));
        }
        other => panic!("unexpected {other:?}"),
    }
    assert!(matches!(&ops[4], Op::CreateMgmtVeth { node, node_ip: 0x0A63_0003, .. } if node == "b"));
    assert_eq!(ifaces_of(&ops[5]), vec!["lo".to_string(), "mgmt0".to_string()]);
}

#[test]
fn mgmt_subnet_must_be_ipv4() {
    let mut t = lab(&["a"]);
    t.lab.mgmt_host_reachable = true;
    t.lab.mgmt_subnet = Some("fd00::/64".to_string());
    let mut names = names_for(&t);
    names.mgmt_cidr = Ok(CidrFacts { v6: true, addr: 0, prefix: 64 });
    let err = plan_topology(&t, &[], &names).unwrap_err();
    assert_eq!(err, Error::DeployFailed("mgmt subnet must be IPv4".to_string()));
}

#[test]
fn mgmt_subnet_too_small() {
    let mut t = lab(&["a"]);
    t.lab.mgmt_host_reachable = true;
    t.lab.mgmt_subnet = Some("10.0.0.0/31".to_string());
    let mut names = names_for(&t);
    names.mgmt_cidr = Ok(CidrFacts { v6: false, addr: 0x0A00_0000, prefix: 31 });
    let err = plan_topology(&t, &[], &names).unwrap_err();
    assert_eq!(
        err,
        Error::DeployFailed(
            "mgmt subnet 10.0.0.0/31 has 0 usable host address(es) but the bridge plus 1 nodes need 2".to_string()
        )
    );
}

#[test]
fn mgmt_subnet_parse_error_is_returned() {
    let mut t = lab(&["a"]);
    t.lab.mgmt_host_reachable = true;
    t.lab.mgmt_subnet = Some("nonsense".to_string());
    let mut names = names_for(&t);
    names.mgmt_cidr = Err(Error::InvalidTopology("bad cidr".to_string()));
    let err = plan_topology(&t, &[], &names).unwrap_err();
    assert_eq!(err, Error::InvalidTopology("bad cidr".to_string()));
}

#[test]
fn bridge_networks_get_member_veths_and_vlans() {
    let mut t = lab(&["a", "b"]);
    let mut net = Network::empty();
    net.members = vec!["a:eth1".to_string(), "b:eth1".to_string()];
    net.vlan_filtering = Some(true);
    net.ports.insert(
        "a".to_string(),
        PortConfig { interface: None, vlans: vec![10], tagged: None, pvid: Some(10), untagged: Some(true), addresses: vec![] },
    );
    t.networks.insert("lan".to_string(), net);
    let names = names_for(&t);
    let ops = plan_topology(&t, &[], &names).unwrap();
    assert!(matches!(&ops[2], Op::CreateMgmtNamespace { ns } if ns == "lab-mgmt"));
    assert!(matches!(&ops[3], Op::CreateBridge { ns, network, name, vlan_filtering: true, mtu: None }
        if ns == "lab-mgmt" && network == "lan" && name == "br-lan"));
    match &ops[4] {
        Op::CreateNetworkVeth { node, iface, peer, mgmt_ns, bridge, vlans } => {
            assert_eq!((node.as_str(), iface.as_str(), peer.as_str()), ("a", "eth1", "lan-p0"));
            assert_eq!((mgmt_ns.as_str(), bridge.as_str()), ("lab-mgmt", "br-lan"));
            let v = vlans.as_ref().unwrap();
            assert_eq!((v.vlans.clone(), v.pvid, v.untagged), (vec![10], Some(10), true));
        }
        other => panic!("unexpected {other:?}"),
    }
    assert!(matches!(&ops[5], Op::CreateNetworkVeth { node, vlans: None, .. } if node == "b"));
    assert_eq!(ifaces_of(&ops[6]), vec!["eth1".to_string(), "lo".to_string()]);
}

#[test]
fn bad_link_endpoints_fail() {
    let mut t = lab(&["a"]);
    t.links.push(link("a-eth0", "a:eth1"));
    let names = names_for(&t);
    let err = plan_topology(&t, &[], &names).unwrap_err();
    assert_eq!(err, Error::InvalidEndpoint { endpoint: "a-eth0".to_string() });

    let mut t = lab(&["a"]);
    t.links.push(link("a:eth0", "z:eth0"));
    let names = names_for(&t);
    let err = plan_topology(&t, &[], &names).unwrap_err();
    assert_eq!(err, Error::NodeNotFound { name: "z".to_string() });
}

#[test]
fn unknown_network_member_fails() {
    let mut t = lab(&["a"]);
    let mut net = Network::empty();
    net.members = vec!["ghost:eth0".to_string()];
    t.networks.insert("lan".to_string(), net);
    let names = names_for(&t);
    let err = plan_topology(&t, &[], &names).unwrap_err();
    assert_eq!(err, Error::NodeNotFound { name: "ghost".to_string() });
}

#[test]
fn radios_and_host_links() {
    let mut t = lab(&["a"]);
    let mut n = Node::empty();
    n.wifi = vec![WifiConfig { name: "wlan0".to_string(), mode: WifiMode::Station, mesh_id: None, channel: None }];
    n.macvlans = vec![MacvlanConfig {
        name: "mv0".to_string(),
        parent: "eth9".to_string(),
        mode: MacvlanMode::Bridge,
        addresses: vec![],
    }];
    t.nodes.insert("a".to_string(), n);
    let mut names = names_for(&t);
    names.radios = 1;
    let ops = plan_topology(&t, &[], &names).unwrap();
    match &ops[1] {
        Op::LoadHwsim { radios, order } => {
            assert_eq!(*radios, 1);
            assert_eq!(order, &vec![("a".to_string(), "wlan0".to_string())]);
        }
        other => panic!("unexpected {other:?}"),
    }
    assert!(matches!(&ops[2], Op::CreateMacvlan { node, cfg } if node == "a" && cfg.name == "mv0"));
    assert_eq!(ifaces_of(&ops[3]), vec!["lo".to_string(), "mv0".to_string(), "wlan0".to_string()]);
}

#[test]
fn hosts_dns_overlays_namespace_nodes() {
    let mut t = lab(&["a", "b"]);
    t.lab.dns = DnsMode::Hosts;
    let mut l = link("a:eth0", "b:eth0");
    l.addresses = Some(["10.0.0.1/24".to_string(), "10.0.0.2/24".to_string()]);
    t.links.push(l);
    let names = names_for(&t);
    let ops = plan_topology(&t, &[], &names).unwrap();
    let n = ops.len();
    assert!(matches!(&ops[n - 3], Op::DnsInject { lab } if lab == "lab"));
    assert!(matches!(&ops[n - 2], Op::DnsNetnsEtc { node, ns } if node == "a" && ns == "lab-a"));
    assert!(matches!(&ops[n - 1], Op::DnsNetnsEtc { node, ns } if node == "b" && ns == "lab-b"));
}

#[test]
fn network_addresses_clear_host_bits() {
    assert_eq!(network_v4(0x0A63_0005, 24), Some(0x0A63_0000));
    assert_eq!(network_v4(0xC0A8_01FF, 23), Some(0xC0A8_0000));
    assert_eq!(network_v4(0xFFFF_FFFF, 0), Some(0));
    assert_eq!(network_v4(0x0102_0304, 32), Some(0x0102_0304));
    assert_eq!(network_v4(0x0102_0304, 33), None);
}

#[test]
fn network_cidr_text() {
    assert_eq!(network_cidr_v4(0x0A63_0005, 24).as_deref(), Some("10.99.0.0/24"));
    assert_eq!(network_cidr_v4(0xC0A8_01FF, 23).as_deref(), Some("192.168.0.0/23"));
    assert_eq!(network_cidr_v4(0x0102_0304, 32).as_deref(), Some("1.2.3.4/32"));
    assert_eq!(network_cidr_v4(0xFFFF_FFFF, 0).as_deref(), Some("0.0.0.0/0"));
    assert_eq!(network_cidr_v4(0x0102_0304, 40), None);
}

#[test]
fn ipv6_networks_clear_host_bits() {
    let a: u128 = 0x2001_0db8_0000_0000_0000_0000_0000_0001;
    assert_eq!(network_v6(a, 64), Some(0x2001_0db8_0000_0000_0000_0000_0000_0000));
    assert_eq!(network_v6(a, 128), Some(a));
    assert_eq!(network_v6(a, 0), Some(0));
    assert_eq!(network_v6(0xFFFF_FFFF_FFFF_FFFF_FFFF_FFFF_FFFF_FFFF, 1), Some(0x8000_0000_0000_0000_0000_0000_0000_0000));
    assert_eq!(network_v6(a, 129), None);
}
