use nlink_lab::builder::Lab;
use nlink_lab::map::StrMap;
use nlink_lab::routes::{auto_generate_routes, auto_routes_for, AddrFacts};
use nlink_lab::types::{RouteConfig, RoutingMode, Topology};
use nlink_lab::vrf::{normalize_dest, vrf_route_ops};

/// The facts of `address/prefix` texts: `(text, is_v6, network)`; the bare
/// address of each is recorded too.
fn facts_of(list: &[(&str, bool, &str)]) -> StrMap<AddrFacts> {
    let mut m = StrMap::new();
    for (text, v6, net) in list {
        m.insert(text.to_string(), AddrFacts { v6: None, network: Some(net.to_string()), shown: None });
        let ip = text.split('/').next().unwrap().to_string();
        m.insert(ip.clone(), AddrFacts { v6: Some(*v6), network: None, shown: Some(ip) });
    }
    m
}

/// Facts of bare addresses (gateways).
fn with_ips(mut m: StrMap<AddrFacts>, ips: &[(&str, bool)]) -> StrMap<AddrFacts> {
    for (ip, v6) in ips {
        m.insert(ip.to_string(), AddrFacts { v6: Some(*v6), network: None, shown: Some(ip.to_string()) });
    }
    m
}

fn via(routes: &StrMap<StrMap<RouteConfig>>, node: &str, dest: &str) -> Option<String> {
    routes.get(node)?.get(dest)?.via.clone()
}

fn stub_node_scenario() {
    let topo = Lab::new("t")
        .profile("router", |p| p.sysctl("net.ipv4.ip_forward", "1"))
        .node("router", |n| n.profile("router"))
        .node("host", |n| n)
        .link("router:eth0", "host:eth0", |l| l.addresses("10.0.0.1/24", "10.0.0.2/24"))
        .build();
    let facts = facts_of(&[("10.0.0.1/24", false, "10.0.0.0/24"), ("10.0.0.2/24", false, "10.0.0.0/24")]);
    let routes = auto_generate_routes(&topo, &facts);
    // host is a stub node → default route via router
    assert!(routes.contains_key("host"), "host should get auto-route");
    assert!(routes.get("host").unwrap().contains_key("default"));
    assert_eq!(via(&routes, "host", "default").as_deref(), Some("10.0.0.1"));
}

fn no_override_scenario() {
    let topo = Lab::new("t")
        .profile("router", |p| p.sysctl("net.ipv4.ip_forward", "1"))
        .node("router", |n| n.profile("router"))
        .node("host", |n| n.route("default", |r| r.via("10.0.0.99")))
        .link("router:eth0", "host:eth0", |l| l.addresses("10.0.0.1/24", "10.0.0.2/24"))
        .build();
    let facts = with_ips(
        facts_of(&[("10.0.0.1/24", false, "10.0.0.0/24"), ("10.0.0.2/24", false, "10.0.0.0/24")]),
        &[("10.0.0.99", false)],
    );
    let routes = auto_generate_routes(&topo, &facts);
    // host already has a manual default route — auto shouldn't override
    let host_routes = routes.get("host");
    assert!(
        host_routes.is_none() || !host_routes.unwrap().contains_key("default"),
        "auto-route should not override manual default"
    );
}

fn multi_hop_scenario() {
    let topo = Lab::new("t")
        .profile("router", |p| p.sysctl("net.ipv4.ip_forward", "1"))
        .node("r1", |n| n.profile("router"))
        .node("r2", |n| n.profile("router"))
        .node("host", |n| n)
        .link("r1:eth0", "r2:eth0", |l| l.addresses("10.0.1.1/24", "10.0.1.2/24"))
        .link("r2:eth1", "host:eth0", |l| l.addresses("10.0.2.1/24", "10.0.2.2/24"))
        .build();
    let facts = facts_of(&[
        ("10.0.1.1/24", false, "10.0.1.0/24"),
        ("10.0.1.2/24", false, "10.0.1.0/24"),
        ("10.0.2.1/24", false, "10.0.2.0/24"),
        ("10.0.2.2/24", false, "10.0.2.0/24"),
    ]);
    let routes = auto_generate_routes(&topo, &facts);
    // host → default via r2
    assert_eq!(via(&routes, "host", "default").as_deref(), Some("10.0.2.1"));
    // r1 has single neighbor (r2) → gets default route via r2
    assert_eq!(via(&routes, "r1", "default").as_deref(), Some("10.0.1.2"), "r1 should default via r2");
}

#[test]
fn deploy_test_auto_route_stub_node() {
    stub_node_scenario();
}

#[test]
fn mod_test_auto_route_stub_node() {
    stub_node_scenario();
}

#[test]
fn deploy_test_auto_route_no_override() {
    no_override_scenario();
}

#[test]
fn mod_test_auto_route_no_override() {
    no_override_scenario();
}

#[test]
fn deploy_test_auto_route_multi_hop() {
    multi_hop_scenario();
}

#[test]
fn mod_test_auto_route_multi_hop() {
    multi_hop_scenario();
}

#[test]
fn routers_route_remote_segments_via_neighbours() {
    let topo = Lab::new("t")
        .node("r1", |n| n.sysctl("net.ipv4.ip_forward", "1"))
        .node("r2", |n| n.sysctl("net.ipv4.ip_forward", "1"))
        .node("host", |n| n)
        .link("r1:eth0", "r2:eth0", |l| l.addresses("10.0.1.1/24", "10.0.1.2/24"))
        .link("r2:eth1", "host:eth0", |l| l.addresses("10.0.2.1/24", "10.0.2.2/24"))
        .build();
    let facts = facts_of(&[
        ("10.0.1.1/24", false, "10.0.1.0/24"),
        ("10.0.1.2/24", false, "10.0.1.0/24"),
        ("10.0.2.1/24", false, "10.0.2.0/24"),
        ("10.0.2.2/24", false, "10.0.2.0/24"),
    ]);
    let routes = auto_generate_routes(&topo, &facts);
    // Both segments are directly connected to r2, so it gets no route; the
    // stub r1 and the host default through their neighbour.
    assert!(routes.get("r2").map_or(true, |m| m.len() == 0));
    assert_eq!(via(&routes, "r1", "default").as_deref(), Some("10.0.1.2"));
    assert_eq!(via(&routes, "host", "default").as_deref(), Some("10.0.2.1"));
}

#[test]
fn router_reaches_remote_subnets_via_first_hop() {
    let topo = Lab::new("t")
        .node("h1", |n| n)
        .node("r1", |n| n.sysctl("net.ipv4.ip_forward", "1"))
        .node("r2", |n| n.sysctl("net.ipv4.ip_forward", "1"))
        .node("h2", |n| n)
        .link("h1:eth0", "r1:eth0", |l| l.addresses("10.0.1.2/24", "10.0.1.1/24"))
        .link("r1:eth1", "r2:eth0", |l| l.addresses("10.0.2.1/24", "10.0.2.2/24"))
        .link("r2:eth1", "h2:eth0", |l| l.addresses("10.0.3.1/24", "10.0.3.2/24"))
        .build();
    let facts = facts_of(&[
        ("10.0.1.1/24", false, "10.0.1.0/24"),
        ("10.0.1.2/24", false, "10.0.1.0/24"),
        ("10.0.2.1/24", false, "10.0.2.0/24"),
        ("10.0.2.2/24", false, "10.0.2.0/24"),
        ("10.0.3.1/24", false, "10.0.3.0/24"),
        ("10.0.3.2/24", false, "10.0.3.0/24"),
    ]);
    let routes = auto_generate_routes(&topo, &facts);
    assert_eq!(via(&routes, "r1", "10.0.3.0/24").as_deref(), Some("10.0.2.2"));
    assert_eq!(via(&routes, "r2", "10.0.1.0/24").as_deref(), Some("10.0.2.1"));
    // Directly connected segments get no route.
    assert_eq!(via(&routes, "r1", "10.0.1.0/24"), None);
    assert_eq!(via(&routes, "r1", "10.0.2.0/24"), None);
    assert_eq!(via(&routes, "h1", "default").as_deref(), Some("10.0.1.1"));
}

#[test]
fn non_router_with_two_neighbours_prefers_forwarder() {
    let topo = Lab::new("t")
        .node("a", |n| n)
        .node("b", |n| n)
        .node("gw", |n| n.sysctl("net.ipv4.ip_forward", "1"))
        .network("lan", |n| {
            n.port("a:eth0", |p| p.address("10.9.0.1/24"))
                .port("b:eth0", |p| p.address("10.9.0.2/24"))
                .port("gw:eth0", |p| p.address("10.9.0.254/24"))
        })
        .build();
    let facts = facts_of(&[
        ("10.9.0.1/24", false, "10.9.0.0/24"),
        ("10.9.0.2/24", false, "10.9.0.0/24"),
        ("10.9.0.254/24", false, "10.9.0.0/24"),
    ]);
    let routes = auto_generate_routes(&topo, &facts);
    assert_eq!(via(&routes, "a", "default").as_deref(), Some("10.9.0.254"));
    assert_eq!(via(&routes, "b", "default").as_deref(), Some("10.9.0.254"));
}

#[test]
fn ipv6_stub_gets_v6_default() {
    let topo = Lab::new("t")
        .node("r", |n| n.sysctl("net.ipv6.conf.all.forwarding", "1"))
        .node("h", |n| n)
        .link("r:eth0", "h:eth0", |l| l.addresses("fd00::1/64", "fd00::2/64"))
        .link("r:eth1", "h:eth1", |l| l.addresses("10.0.0.1/24", "10.0.0.2/24"))
        .build();
    let facts = facts_of(&[
        ("fd00::1/64", true, "fd00::/64"),
        ("fd00::2/64", true, "fd00::/64"),
        ("10.0.0.1/24", false, "10.0.0.0/24"),
        ("10.0.0.2/24", false, "10.0.0.0/24"),
    ]);
    let routes = auto_generate_routes(&topo, &facts);
    assert_eq!(via(&routes, "h", "::/0").as_deref(), Some("fd00::1"));
    assert_eq!(via(&routes, "h", "default").as_deref(), Some("10.0.0.1"));
}

#[test]
fn routing_modes() {
    let build = |mode: RoutingMode| {
        let mut topo = Lab::new("t")
            .node("r", |n| n.sysctl("net.ipv4.ip_forward", "1"))
            .node("h", |n| n)
            .link("r:eth0", "h:eth0", |l| l.addresses("10.0.0.1/24", "10.0.0.2/24"))
            .build();
        topo.lab.routing = mode;
        topo
    };
    let facts = facts_of(&[("10.0.0.1/24", false, "10.0.0.0/24"), ("10.0.0.2/24", false, "10.0.0.0/24")]);
    let manual = build(RoutingMode::Manual);
    assert_eq!(auto_routes_for(&manual, &facts, &vec![]).len(), 0);
    let auto = build(RoutingMode::Auto);
    let r = auto_routes_for(&auto, &facts, &vec![]);
    assert!(r.get("h").is_some() && r.get("r").is_some());
    let frr = build(RoutingMode::Frr);
    let r = auto_routes_for(&frr, &facts, &vec!["r".to_string()]);
    assert!(r.get("h").is_some());
    assert!(r.get("r").is_none());
}

fn ip(text: &str, v6: bool, shown: &str) -> (String, AddrFacts) {
    (text.to_string(), AddrFacts { v6: Some(v6), network: None, shown: Some(shown.to_string()) })
}

fn table(entries: Vec<(String, AddrFacts)>) -> StrMap<AddrFacts> {
    let mut m = StrMap::new();
    for (k, v) in entries {
        m.insert(k, v);
    }
    m
}

#[test]
fn vrf_routes_resolve_to_table_routes() {
    let topo = Lab::new("t")
        .node("r", |n| {
            n.vrf("red", |v| {
                v.table(10)
                    .route("default", |r| r.via("10.0.0.2"))
                    .route("10.9.0.0/16", |r| r.via("10.0.0.3").metric(7))
                    .route("fd00::5", |r| r.dev("eth1"))
            })
        })
        .build();
    let facts = table(vec![
        ip("10.0.0.2", false, "10.0.0.2"),
        ip("10.0.0.3", false, "10.0.0.3"),
        ip("0.0.0.0", false, "0.0.0.0"),
        ip("10.9.0.0", false, "10.9.0.0"),
        ip("fd00::5", true, "fd00::5"),
    ]);
    let node = topo.nodes.get("r").unwrap();
    let ops = vrf_route_ops("r", node, &facts).unwrap();
    let text: Vec<String> = ops.iter().map(|o| o.describe()).collect();
    assert_eq!(
        text,
        vec![
            "r: route 10.9.0.0/16 table 10 via 10.0.0.3 metric 7",
            "r: route 0.0.0.0/0 table 10 via 10.0.0.2",
            "r: route fd00::5/128 table 10 dev eth1",
        ]
    );
    assert_eq!(ops[1].key(), "route:r:10:0.0.0.0/0");
}

#[test]
fn vrf_route_errors_name_the_route() {
    let topo = Lab::new("t")
        .node("r", |n| n.vrf("red", |v| v.table(10).route("10.1.0.0/40", |r| r)))
        .build();
    let facts = table(vec![ip("10.1.0.0", false, "10.1.0.0")]);
    let err = vrf_route_ops("r", topo.nodes.get("r").unwrap(), &facts).unwrap_err();
    assert_eq!(err.to_text(), "invalid topology: vrf 'red' on node 'r': route '10.1.0.0/40': prefix /40 exceeds /32");

    let topo = Lab::new("t")
        .node("r", |n| n.vrf("red", |v| v.table(10).route("10.1.0.0/24", |r| r.via("fd00::1"))))
        .build();
    let facts = table(vec![ip("10.1.0.0", false, "10.1.0.0"), ip("fd00::1", true, "fd00::1")]);
    let err = vrf_route_ops("r", topo.nodes.get("r").unwrap(), &facts).unwrap_err();
    assert_eq!(
        err.to_text(),
        "invalid topology: vrf 'red' on node 'r': route '10.1.0.0/24': gateway fd00::1 and destination 10.1.0.0 are different address families"
    );

    let facts = table(vec![]);
    let err = vrf_route_ops("r", topo.nodes.get("r").unwrap(), &facts).unwrap_err();
    assert_eq!(
        err.to_text(),
        "invalid topology: vrf 'red' on node 'r': route '10.1.0.0/24': invalid destination: invalid IP address syntax"
    );

    let topo = Lab::new("t")
        .node("r", |n| n.vrf("red", |v| v.table(10).route("10.1.0.0/x", |r| r)))
        .build();
    let facts = table(vec![ip("10.1.0.0", false, "10.1.0.0")]);
    let err = vrf_route_ops("r", topo.nodes.get("r").unwrap(), &facts).unwrap_err();
    assert_eq!(
        err.to_text(),
        "invalid topology: vrf 'red' on node 'r': route '10.1.0.0/x': invalid prefix: invalid digit found in string"
    );
}

#[test]
fn normalize_dest_forms() {
    let facts = table(vec![ip("fd00::1", true, "fd00::1")]);
    let plain = RouteConfig { via: None, dev: None, metric: None };
    let v6_gw = RouteConfig { via: Some("fd00::1".to_string()), dev: None, metric: None };
    assert_eq!(normalize_dest("default", &plain, &facts), "0.0.0.0/0");
    assert_eq!(normalize_dest("default", &v6_gw, &facts), "::/0");
    assert_eq!(normalize_dest("10.0.0.1", &plain, &facts), "10.0.0.1/32");
    assert_eq!(normalize_dest("fd00::9", &plain, &facts), "fd00::9/128");
    assert_eq!(normalize_dest("10.0.0.0/8", &plain, &facts), "10.0.0.0/8");
}

#[test]
fn router_routes_a_network_via_its_nearest_holder() {
    // r reaches b first (link order), but network 10.0.9.0/24 is held by a
    // (one hop) and by c (two hops, behind b): the route goes via a.
    let topo = Lab::new("t")
        .node("r", |n| n.sysctl("net.ipv4.ip_forward", "1"))
        .node("a", |n| n)
        .node("b", |n| n)
        .node("c", |n| n)
        .node("d", |n| n)
        .node("e", |n| n)
        .link("r:eth0", "b:eth0", |l| l.addresses("10.0.1.1/24", "10.0.1.2/24"))
        .link("r:eth1", "a:eth0", |l| l.addresses("10.0.2.1/24", "10.0.2.2/24"))
        .link("b:eth1", "c:eth0", |l| l.addresses("10.0.3.1/24", "10.0.3.2/24"))
        .link("a:eth1", "d:eth0", |l| l.addresses("10.0.9.1/24", "10.0.9.2/24"))
        .link("c:eth1", "e:eth0", |l| l.addresses("10.0.9.3/24", "10.0.9.4/24"))
        .build();
    let facts = facts_of(&[
        ("10.0.1.1/24", false, "10.0.1.0/24"),
        ("10.0.1.2/24", false, "10.0.1.0/24"),
        ("10.0.2.1/24", false, "10.0.2.0/24"),
        ("10.0.2.2/24", false, "10.0.2.0/24"),
        ("10.0.3.1/24", false, "10.0.3.0/24"),
        ("10.0.3.2/24", false, "10.0.3.0/24"),
        ("10.0.9.1/24", false, "10.0.9.0/24"),
        ("10.0.9.2/24", false, "10.0.9.0/24"),
        ("10.0.9.3/24", false, "10.0.9.0/24"),
        ("10.0.9.4/24", false, "10.0.9.0/24"),
    ]);
    let routes = auto_generate_routes(&topo, &facts);
    assert_eq!(via(&routes, "r", "10.0.9.0/24").as_deref(), Some("10.0.2.2"));
    assert_eq!(via(&routes, "r", "10.0.3.0/24").as_deref(), Some("10.0.1.2"));
}

#[test]
fn router_breaks_ties_by_neighbour_order() {
    let topo = Lab::new("t")
        .node("r", |n| n.sysctl("net.ipv4.ip_forward", "1"))
        .node("a", |n| n)
        .node("b", |n| n)
        .node("d", |n| n)
        .node("e", |n| n)
        .link("r:eth0", "a:eth0", |l| l.addresses("10.0.1.1/24", "10.0.1.2/24"))
        .link("r:eth1", "b:eth0", |l| l.addresses("10.0.2.1/24", "10.0.2.2/24"))
        .link("a:eth1", "d:eth0", |l| l.addresses("10.0.3.1/24", "10.0.3.2/24"))
        .link("b:eth1", "d:eth1", |l| l.addresses("10.0.4.1/24", "10.0.4.2/24"))
        .link("d:eth2", "e:eth0", |l| l.addresses("10.0.5.1/24", "10.0.5.2/24"))
        .build();
    let facts = facts_of(&[
        ("10.0.1.1/24", false, "10.0.1.0/24"),
        ("10.0.1.2/24", false, "10.0.1.0/24"),
        ("10.0.2.1/24", false, "10.0.2.0/24"),
        ("10.0.2.2/24", false, "10.0.2.0/24"),
        ("10.0.3.1/24", false, "10.0.3.0/24"),
        ("10.0.3.2/24", false, "10.0.3.0/24"),
        ("10.0.4.1/24", false, "10.0.4.0/24"),
        ("10.0.4.2/24", false, "10.0.4.0/24"),
        ("10.0.5.1/24", false, "10.0.5.0/24"),
        ("10.0.5.2/24", false, "10.0.5.0/24"),
    ]);
    let routes = auto_generate_routes(&topo, &facts);
    // d is two hops away through a and through b: the search reaches it
    // first through a, the first neighbour.
    assert_eq!(via(&routes, "r", "10.0.5.0/24").as_deref(), Some("10.0.1.2"));
    assert_eq!(via(&routes, "r", "10.0.3.0/24").as_deref(), Some("10.0.1.2"));
    assert_eq!(via(&routes, "r", "10.0.4.0/24").as_deref(), Some("10.0.2.2"));
}
