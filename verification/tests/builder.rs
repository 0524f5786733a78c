use nlink_lab::builder::Lab;

#[test]
fn test_basic_lab() {
    let topo = Lab::new("test").description("A test lab").prefix("t").build();

    assert_eq!(topo.lab.name, "test");
    assert_eq!(topo.lab.description.as_deref(), Some("A test lab"));
    assert_eq!(topo.lab.prefix(), "t");
}

#[test]
fn test_profiles_nodes_links() {
    let topo = Lab::new("net")
        .profile("router", |p| {
            p.sysctl("net.ipv4.ip_forward", "1")
                .sysctl("net.ipv6.conf.all.forwarding", "1")
        })
        .node("r1", |n| {
            n.profile("router")
                .interface("lo", |i| i.address("10.255.0.1/32"))
                .route("default", |r| r.via("10.0.11.1"))
        })
        .node("h1", |n| n.route("default", |r| r.via("10.0.0.1")))
        .link("r1:eth0", "h1:eth0", |l| l.addresses("10.0.0.1/24", "10.0.0.2/24").mtu(9000))
        .build();

    assert_eq!(topo.profiles.len(), 1);
    assert_eq!(
        topo.profiles.get("router").unwrap().sysctls.get("net.ipv4.ip_forward").unwrap(),
        "1"
    );
    assert_eq!(topo.nodes.len(), 2);
    let r1 = topo.nodes.get("r1").unwrap();
    assert_eq!(r1.profile.as_deref(), Some("router"));
    assert_eq!(r1.interfaces.get("lo").unwrap().addresses, vec!["10.255.0.1/32"]);
    assert_eq!(r1.routes.get("default").unwrap().via.as_deref(), Some("10.0.11.1"));
    assert_eq!(topo.links.len(), 1);
    assert_eq!(topo.links[0].mtu, Some(9000));
    assert_eq!(
        topo.links[0].addresses.as_ref().unwrap(),
        &["10.0.0.1/24".to_string(), "10.0.0.2/24".to_string()]
    );
}

#[test]
fn test_impairments_and_rate_limits() {
    let topo = Lab::new("imp")
        .node("a", |n| n)
        .node("b", |n| n)
        .link("a:eth0", "b:eth0", |l| l)
        .impair("a:eth0", |i| {
            i.delay("10ms")
                .jitter("2ms")
                .loss("0.1%")
                .rate("100mbit")
                .corrupt("0.01%")
                .reorder("0.5%")
        })
        .rate_limit("b:eth0", |r| r.egress("1gbit").ingress("1gbit").burst("10mbit"))
        .build();

    let imp = topo.impairments.get("a:eth0").unwrap();
    assert_eq!(imp.delay.as_deref(), Some("10ms"));
    assert_eq!(imp.jitter.as_deref(), Some("2ms"));
    assert_eq!(imp.loss.as_deref(), Some("0.1%"));
    assert_eq!(imp.rate.as_deref(), Some("100mbit"));
    assert_eq!(imp.corrupt.as_deref(), Some("0.01%"));
    assert_eq!(imp.reorder.as_deref(), Some("0.5%"));

    let rl = topo.rate_limits.get("b:eth0").unwrap();
    assert_eq!(rl.egress.as_deref(), Some("1gbit"));
    assert_eq!(rl.ingress.as_deref(), Some("1gbit"));
    assert_eq!(rl.burst.as_deref(), Some("10mbit"));
}

#[test]
fn test_network_with_vlans() {
    let topo = Lab::new("vlan")
        .node("switch", |n| n)
        .node("pc1", |n| n)
        .network("office", |net| {
            net.kind("bridge")
                .vlan_filtering(true)
                .vlan(10, Some("engineering"))
                .vlan(20, Some("sales"))
                .port("switch", |p| p.interface("eth0").vlans(&[10, 20]).tagged(true))
                .port("pc1", |p| {
                    p.interface("eth0").pvid(10).untagged(true).address("10.10.0.2/24")
                })
        })
        .build();

    let net = topo.networks.get("office").unwrap();
    assert_eq!(net.kind.as_deref(), Some("bridge"));
    assert_eq!(net.vlan_filtering, Some(true));
    assert_eq!(net.vlans.len(), 2);
    assert_eq!(net.vlan(10).unwrap().name.as_deref(), Some("engineering"));
    assert_eq!(net.ports.get("switch").unwrap().vlans, vec![10, 20]);
    assert_eq!(net.ports.get("switch").unwrap().tagged, Some(true));
    assert_eq!(net.ports.get("pc1").unwrap().pvid, Some(10));
}

#[test]
fn test_vrf() {
    let topo = Lab::new("vrf")
        .node("pe", |n| {
            n.profile("router").vrf("red", |v| {
                v.table(100).interface("eth1").route("0.0.0.0/0", |r| r.via("10.0.1.2"))
            })
        })
        .build();

    let vrf = topo.nodes.get("pe").unwrap().vrfs.get("red").unwrap();
    assert_eq!(vrf.table, 100);
    assert_eq!(vrf.interfaces, vec!["eth1"]);
    assert_eq!(vrf.routes.get("0.0.0.0/0").unwrap().via.as_deref(), Some("10.0.1.2"));
}

#[test]
fn test_wireguard() {
    let topo = Lab::new("wg")
        .node("office", |n| {
            n.wireguard("wg0", |w| {
                w.private_key("auto").listen_port(51820).address("10.100.0.1/24").peer("remote")
            })
        })
        .build();

    let wg = topo.nodes.get("office").unwrap().wireguard.get("wg0").unwrap();
    assert_eq!(wg.private_key.as_deref(), Some("auto"));
    assert_eq!(wg.listen_port, Some(51820));
    assert_eq!(wg.addresses, vec!["10.100.0.1/24"]);
    assert_eq!(wg.peers, vec!["remote"]);
}

#[test]
fn test_firewall() {
    let topo = Lab::new("fw")
        .node("server", |n| {
            n.firewall(|f| {
                f.policy("drop")
                    .rule("ct state established,related", "accept")
                    .rule("tcp dport 80", "accept")
            })
        })
        .build();

    let fw = topo.nodes.get("server").unwrap().firewall.as_ref().unwrap();
    assert_eq!(fw.policy.as_deref(), Some("drop"));
    assert_eq!(fw.rules.len(), 2);
    assert_eq!(fw.rules[0].action.as_deref(), Some("accept"));
}

#[test]
fn test_exec() {
    let topo = Lab::new("exec")
        .node("server", |n| n.exec_background(&["iperf3", "-s"]).exec(&["echo", "hello"]))
        .build();

    let server = topo.nodes.get("server").unwrap();
    assert_eq!(server.execs.len(), 2);
    assert!(server.execs[0].background);
    assert!(!server.execs[1].background);
    assert_eq!(server.execs[0].cmd, vec!["iperf3", "-s"]);
}

#[test]
fn builder_later_entry_replaces_earlier() {
    let topo = Lab::new("x")
        .node("b", |n| n.sysctl("k", "1"))
        .node("a", |n| n)
        .node("b", |n| n.sysctl("k", "2"))
        .build();
    assert_eq!(topo.nodes.len(), 2);
    assert_eq!(topo.nodes.key_at(0), "a");
    assert_eq!(topo.nodes.key_at(1), "b");
    assert_eq!(topo.nodes.get("b").unwrap().sysctls.get("k").unwrap(), "2");
}

#[test]
fn builder_default_prefix_is_lab_name() {
    let topo = Lab::new("dc").build();
    assert_eq!(topo.lab.prefix(), "dc");
}
