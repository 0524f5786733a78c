use nlink_lab::builder::Lab;
use nlink_lab::error::Error;
use nlink_lab::map::StrMap;
use nlink_lab::routes::AddrFacts;
use nlink_lab::types::Topology;
use nlink_lab::wgconfig::{cidr_parts, find_peer_endpoint, topology_to_wireguard_config};
use nlink_lab::wireguard::{build_wg_public_key_map, decode_wg_key, generate_wg_private_key, keep_saved_keys};

const ALICE_PRIV_HEX: &str = "77076d0a7318a57d3c16c17251b26645df4c2f87ebc0992ab177fba51db92c2a";
const ALICE_PUB_HEX: &str = "8520f0098930a754748b7ddcb43ef75a0dbf3a0d26381af4eba4a98eaa9b4e6a";
const ALICE_PRIV_B64: &str = "dwdtCnMYpX08FsFyUbJmRd9ML4frwJkqsXf7pR25LCo=";

fn hex(bytes: &[u8]) -> String {
    bytes.iter().map(|b| format!("{b:02x}")).collect()
}

#[test]
fn build_wg_public_key_map_decodes_explicit_key() {
    let topo = Lab::new("t")
        .node("host", |n| n.wireguard("wg0", |w| w.private_key(ALICE_PRIV_B64).listen_port(51820)))
        .build();
    let map = build_wg_public_key_map(&topo).unwrap();
    let (got_priv, got_pub) = *map.get("host").unwrap().get("wg0").unwrap();
    assert_eq!(hex(&got_priv), ALICE_PRIV_HEX);
    assert_eq!(hex(&got_pub), ALICE_PUB_HEX);
}

#[test]
fn build_wg_public_key_map_bad_key_errors() {
    let topo = Lab::new("t")
        .node("host", |n| n.wireguard("wg0", |w| w.private_key("not-base64!@#")))
        .build();
    let err = build_wg_public_key_map(&topo).unwrap_err();
    assert!(matches!(err, Error::InvalidTopology(_)));
    let text = err.to_text();
    assert!(text.starts_with("invalid topology: invalid WireGuard private key for 'wg0' on 'host': base64 decode: "), "{text}");
}

#[test]
fn short_key_reports_its_length() {
    assert_eq!(decode_wg_key("AAAA"), Err("expected 32 bytes, got 3".to_string()));
    assert_eq!(hex(&decode_wg_key(ALICE_PRIV_B64).unwrap()), ALICE_PRIV_HEX);
}

#[test]
fn generated_keys_are_clamped() {
    let k = generate_wg_private_key().unwrap();
    assert_eq!(k[0] & 7, 0);
    assert_eq!(k[31] & 128, 0);
    assert_eq!(k[31] & 64, 64);
}

#[test]
fn auto_keys_are_generated_and_nodes_without_wireguard_skipped() {
    let topo = Lab::new("t")
        .node("a", |n| n.wireguard("wg0", |w| w.private_key("auto")))
        .node("b", |n| n)
        .build();
    let map = build_wg_public_key_map(&topo).unwrap();
    assert_eq!(map.len(), 1);
    let (p, _) = *map.get("a").unwrap().get("wg0").unwrap();
    assert_eq!(p[0] & 7, 0);
    assert!(map.get("b").is_none());
}

/// The parsed forms of the addresses the topologies below use.
fn wg_facts() -> StrMap<AddrFacts> {
    let mut m = StrMap::new();
    for (text, v6) in [("10.99.0.1", false), ("10.99.0.2", false), ("10.0.0.1", false), ("10.0.0.2", false), ("fd00::2", true)] {
        m.insert(text.to_string(), AddrFacts { v6: Some(v6), network: None, shown: Some(text.to_string()) });
    }
    m
}

/// Nodes `a` and `b`, each with one WireGuard interface listing the other.
fn wg_pair() -> Topology {
    Lab::new("t")
        .node("a", |n| n.wireguard("wg0", |w| w.listen_port(51820).address("10.99.0.1/24").peer("b")))
        .node("b", |n| n.wireguard("wg0", |w| w.listen_port(51821).address("10.99.0.2/24").peer("a")))
        .build()
}

#[test]
fn topology_to_wireguard_config_declares_devices_and_peers() {
    let topo = wg_pair();
    let keys = build_wg_public_key_map(&topo).unwrap();
    let cfg = topology_to_wireguard_config("a", topo.nodes.get("a").unwrap(), &topo, &keys, &wg_facts()).unwrap();
    assert_eq!(cfg.devices().len(), 1, "expected 1 WG device for node 'a'");
    let device = &cfg.devices()[0];
    assert_eq!(device.ifname, "wg0");
    let expected_peer_pub = keys.get("b").unwrap().get("wg0").unwrap().1;
    let has_expected_peer = device.peers.iter().any(|p| p.public_key == expected_peer_pub);
    assert!(has_expected_peer, "expected peer with b.wg0's public key in cfg",);
}

#[test]
fn topology_to_wireguard_config_unknown_peer_node_errors() {
    let topo = Lab::new("t")
        .node("a", |n| n.wireguard("wg0", |w| w.listen_port(51820).address("10.99.0.1/24").peer("b")))
        .node("b", |n| n)
        .build();
    let keys = build_wg_public_key_map(&topo).unwrap();
    let err = topology_to_wireguard_config("a", topo.nodes.get("a").unwrap(), &topo, &keys, &wg_facts()).unwrap_err();
    assert!(matches!(err, Error::InvalidTopology(_)));
    assert_eq!(
        err.to_text(),
        "invalid topology: WireGuard peer 'b' referenced by 'a'.wg0 has no WireGuard interfaces"
    );
}

#[test]
fn wireguard_device_carries_keys_port_and_allowed_ips() {
    let topo = wg_pair();
    let keys = build_wg_public_key_map(&topo).unwrap();
    let cfg = topology_to_wireguard_config("a", topo.nodes.get("a").unwrap(), &topo, &keys, &wg_facts()).unwrap();
    let device = &cfg.devices()[0];
    assert_eq!(device.private_key, keys.get("a").unwrap().get("wg0").unwrap().0);
    assert_eq!(device.listen_port, Some(51820));
    assert_eq!(device.fwmark, None);
    assert_eq!(device.peers.len(), 1);
    let peer = &device.peers[0];
    assert_eq!(peer.allowed_ips.len(), 1);
    assert_eq!(peer.allowed_ips[0].addr, "10.99.0.2");
    assert_eq!(peer.allowed_ips[0].prefix, 24);
    assert!(!peer.allowed_ips[0].v6);
    // b has no link or interface address, so no endpoint.
    assert!(peer.endpoint.is_none());
}

#[test]
fn wireguard_peer_endpoint_comes_from_link_address() {
    let topo = Lab::new("t")
        .node("a", |n| n.wireguard("wg0", |w| w.address("10.99.0.1/24").peer("b")))
        .node("b", |n| n.wireguard("wg0", |w| w.listen_port(51821).address("10.99.0.2/24").peer("a")))
        .link("a:eth0", "b:eth0", |l| l.addresses("10.0.0.1/30", "10.0.0.2/30"))
        .build();
    let keys = build_wg_public_key_map(&topo).unwrap();
    let cfg = topology_to_wireguard_config("a", topo.nodes.get("a").unwrap(), &topo, &keys, &wg_facts()).unwrap();
    let ep = cfg.devices()[0].peers[0].endpoint.clone().unwrap();
    assert_eq!(ep.addr, "10.0.0.2");
    assert_eq!(ep.port, 51821);
    assert!(!ep.v6);
    assert_eq!(find_peer_endpoint(&topo, &wg_facts(), "a"), Some((false, "10.0.0.1".to_string())));
    assert_eq!(find_peer_endpoint(&topo, &wg_facts(), "c"), None);
}

#[test]
fn wireguard_peer_endpoint_falls_back_to_interface_address() {
    let topo = Lab::new("t")
        .node("b", |n| n.interface("eth1", |i| i.address("not-an-address").address("fd00::2/64")))
        .build();
    assert_eq!(find_peer_endpoint(&topo, &wg_facts(), "b"), Some((true, "fd00::2".to_string())));
}

#[test]
fn wireguard_peer_that_does_not_list_back_is_skipped() {
    let topo = Lab::new("t")
        .node("a", |n| n.wireguard("wg0", |w| w.peer("b")))
        .node("b", |n| n.wireguard("wg0", |w| w.address("10.99.0.2/24")))
        .build();
    let keys = build_wg_public_key_map(&topo).unwrap();
    let cfg = topology_to_wireguard_config("a", topo.nodes.get("a").unwrap(), &topo, &keys, &wg_facts()).unwrap();
    assert_eq!(cfg.devices().len(), 1);
    assert!(cfg.devices()[0].peers.is_empty());
}

#[test]
fn wireguard_config_needs_the_nodes_keys() {
    let topo = wg_pair();
    let keys = build_wg_public_key_map(&Lab::new("t").build()).unwrap();
    let err = topology_to_wireguard_config("a", topo.nodes.get("a").unwrap(), &topo, &keys, &wg_facts()).unwrap_err();
    assert_eq!(err.to_text(), "deploy failed: internal: no key map for WireGuard node 'a'");
}

#[test]
fn cidr_parts_checks_the_prefix_against_the_family() {
    let f = wg_facts();
    assert_eq!(cidr_parts("10.0.0.1/32", &f), Some((false, "10.0.0.1".to_string(), 32)));
    assert_eq!(cidr_parts("10.0.0.1/33", &f), None);
    assert_eq!(cidr_parts("fd00::2/128", &f), Some((true, "fd00::2".to_string(), 128)));
    assert_eq!(cidr_parts("10.0.0.1", &f), None);
    assert_eq!(cidr_parts("bogus/8", &f), None);
}

fn key_map(entries: &[(&str, &str, u8)]) -> StrMap<StrMap<([u8; 32], [u8; 32])>> {
    let mut m: StrMap<StrMap<([u8; 32], [u8; 32])>> = StrMap::new();
    for (node, iface, b) in entries {
        let mut inner = m.get(node).cloned().unwrap_or_else(StrMap::new);
        inner.insert(iface.to_string(), ([*b; 32], [*b + 100; 32]));
        m.insert(node.to_string(), inner);
    }
    m
}

#[test]
fn saved_keys_are_kept_for_existing_interfaces() {
    let mut fresh = key_map(&[("a", "wg0", 1), ("a", "wg1", 2), ("b", "wg0", 3)]);
    let saved = key_map(&[("a", "wg0", 7), ("a", "old", 8), ("gone", "wg0", 9)]);
    keep_saved_keys(&mut fresh, &saved);
    assert_eq!(fresh.len(), 2);
    let a = fresh.get("a").unwrap();
    assert_eq!(a.len(), 2);
    assert_eq!(a.get("wg0").unwrap().0, [7; 32]);
    assert_eq!(a.get("wg1").unwrap().0, [2; 32]);
    assert!(a.get("old").is_none());
    assert_eq!(fresh.get("b").unwrap().get("wg0").unwrap().1, [103; 32]);
    assert!(fresh.get("gone").is_none());
}

#[test]
fn clamp_key_clears_and_sets_the_curve_bits() {
    let raw = [0xffu8; 32];
    let k = nlink_lab::wireguard::clamp_key(raw);
    assert_eq!(k[0], 0xf8);
    assert_eq!(k[31], 0x7f);
    assert!(k[1..31].iter().all(|b| *b == 0xff));
    let k = nlink_lab::wireguard::clamp_key([0u8; 32]);
    assert_eq!(k[0], 0);
    assert_eq!(k[31], 64);
}

#[test]
fn key_from_bytes_wants_exactly_32() {
    assert_eq!(nlink_lab::wireguard::key_from_bytes(&[1u8; 3]), Err("expected 32 bytes, got 3".to_string()));
    assert_eq!(nlink_lab::wireguard::key_from_bytes(&[7u8; 32]), Ok([7u8; 32]));
}
