use nlink_lab::container::CreateOpts;
use nlink_lab::map::StrMap;
use nlink_lab::op::{Op, RouteSpec, Stage};
use nlink_lab::plan::{apply_report, Plan};
use nlink_lab::types::{EndpointRef, ExecConfig, Impairment, MacvlanConfig, MacvlanMode, WifiConfig, WifiMode};

fn ns(node: &str) -> Op {
    Op::CreateNamespace { node: node.to_string(), ns: format!("lab-{node}") }
}

fn veth(a: &str, b: &str) -> Op {
    Op::CreateVeth {
        a: EndpointRef { node: a.to_string(), iface: "eth0".to_string() },
        b: EndpointRef { node: b.to_string(), iface: "eth0".to_string() },
        mtu: None,
    }
}

fn netem(node: &str, delay: &str) -> Op {
    let mut imp = Impairment::empty();
    imp.delay = Some(delay.to_string());
    Op::Netem { node: node.to_string(), iface: "eth0".to_string(), impairment: imp }
}

fn exec(node: &str, index: usize, background: bool) -> Op {
    Op::Exec {
        node: node.to_string(),
        index,
        command: ExecConfig { cmd: vec!["sleep".to_string(), "1".to_string()], background },
    }
}

fn route(dest: &str) -> RouteSpec {
    RouteSpec {
        dest: dest.to_string(),
        prefix: 0,
        table: 10,
        via: Some("10.0.0.2".to_string()),
        dev: None,
        metric: Some(5),
    }
}

fn describe_all(p: &Plan) -> Vec<String> {
    p.ops.iter().map(|o| o.describe()).collect()
}

#[test]
fn op_keys_address_resources() {
    assert_eq!(ns("a").key(), "ns:lab-a");
    assert_eq!(veth("a", "b").key(), "link:a:eth0");
    assert_eq!(netem("a", "5ms").key(), "qdisc:a:eth0");
    assert_eq!(exec("a", 3, true).key(), "exec:a:3");
    assert_eq!(Op::Route { node: "r".to_string(), route: route("0.0.0.0") }.key(), "route:r:10:0.0.0.0/0");
    assert_eq!(Op::NetworkImpairments.key(), "network-impairments");
    assert_eq!(Op::LoadHwsim { radios: 2, order: vec![] }.key(), "hwsim");
}

#[test]
fn inverse_keeps_the_key_for_every_kind() {
    let ops = vec![
        ns("a"),
        Op::CreateMgmtNamespace { ns: "lab-mgmt".to_string() },
        Op::CreateContainer {
            node: "c".to_string(),
            name: "lab-c".to_string(),
            image: "alpine".to_string(),
            pull: None,
            opts: CreateOpts::default(),
        },
        Op::CreateMgmtBridge { name: "br-mgmt".to_string(), ip: 0x0a000001, prefix: 24 },
        Op::CreateMgmtVeth {
            node: "a".to_string(),
            peer: "mg-0".to_string(),
            bridge: "br-mgmt".to_string(),
            node_ip: 0x0a000002,
            prefix: 24,
        },
        veth("a", "b"),
        Op::CreateMacvlan {
            node: "a".to_string(),
            cfg: MacvlanConfig {
                name: "mv0".to_string(),
                parent: "eth9".to_string(),
                mode: MacvlanMode::Bridge,
                addresses: vec![],
            },
        },
        Op::Route { node: "r".to_string(), route: route("10.1.0.0") },
        netem("a", "5ms"),
        Op::DnsInject { lab: "lab".to_string() },
    ];
    for op in &ops {
        let inv = op.inverse().expect("create op has an inverse");
        assert!(inv.is_removal());
        assert_eq!(op.key(), inv.key());
    }
    let bg = exec("a", 0, true).inverse().unwrap();
    assert_eq!(bg.key(), "procs:a");
    assert!(exec("a", 0, false).inverse().is_none());
    assert!(Op::Stack { node: "a".to_string() }.inverse().is_none());
}

#[test]
fn stages_and_descriptions() {
    assert_eq!(ns("a").stage(), Stage::Namespaces);
    assert_eq!(netem("a", "1ms").stage(), Stage::Tc);
    assert_eq!(ns("a").describe(), "create namespace lab-a for a");
    assert_eq!(veth("a", "b").describe(), "veth a:eth0 ↔ b:eth0");
    assert_eq!(
        Op::CreateMgmtBridge { name: "br".to_string(), ip: 0xac100001, prefix: 24 }.describe(),
        "create mgmt bridge br 172.16.0.1/24"
    );
    assert_eq!(
        Op::LinksUp { node: "a".to_string(), ifaces: vec!["eth0".to_string(), "lo".to_string()] }.describe(),
        "a: up eth0,lo"
    );
    assert_eq!(exec("a", 1, true).describe(), "a: exec[1] sleep 1 (background)");
    assert_eq!(
        Op::WifiDaemon {
            node: "w".to_string(),
            wifi: WifiConfig { name: "wlan0".to_string(), mode: WifiMode::Mesh, mesh_id: None, channel: None },
        }
        .describe(),
        "w: wifi wlan0 (Mesh)"
    );
    assert_eq!(
        Op::Route { node: "r".to_string(), route: route("0.0.0.0") }.describe(),
        "r: route 0.0.0.0/0 table 10 via 10.0.0.2 metric 5"
    );
    let mut entries = StrMap::new();
    entries.insert("net.ipv4.ip_forward".to_string(), "1".to_string());
    assert_eq!(Op::Sysctls { node: "r".to_string(), entries }.describe(), "r: 1 sysctl(s)");
}

#[test]
fn sorted_orders_by_stage_and_keeps_order_within() {
    let p = Plan { ops: vec![netem("a", "1ms"), veth("a", "b"), ns("b"), ns("a")] }.sorted();
    assert_eq!(
        describe_all(&p),
        vec![
            "create namespace lab-b for b",
            "create namespace lab-a for a",
            "veth a:eth0 ↔ b:eth0",
            "netem on a:eth0",
        ]
    );
    let only_ns = p.stage(Stage::Namespaces);
    assert_eq!(only_ns.len(), 2);
}

#[test]
fn diff_from_empty_is_the_sorted_plan() {
    let desired = Plan { ops: vec![veth("a", "b"), ns("a"), ns("b"), exec("a", 0, false)] };
    let d = Plan::diff(&Plan::default(), &desired);
    let s = Plan { ops: desired.ops.clone() }.sorted();
    assert_eq!(describe_all(&d), describe_all(&s));
}

#[test]
fn diff_of_identical_plans_reruns_only_reconciling_ops() {
    let p = Plan {
        ops: vec![
            ns("a"),
            Op::Stack { node: "a".to_string() },
            exec("a", 0, true),
            Op::LinksUp { node: "a".to_string(), ifaces: vec!["lo".to_string()] },
        ],
    };
    let d = Plan::diff(&p, &p);
    assert_eq!(describe_all(&d), vec!["a: up lo", "a: reconcile links/addresses/routes, nftables, wireguard"]);
}

#[test]
fn diff_removes_what_left_and_skips_what_its_namespace_takes() {
    let current = Plan { ops: vec![ns("a"), ns("b"), veth("a", "b"), netem("b", "5ms"), exec("b", 0, true), exec("b", 1, true)] };
    let desired = Plan { ops: vec![ns("a")] };
    let d = Plan::diff(&current, &desired);
    // The qdisc and processes of `b` go with its namespace; the link is
    // deleted from `a`'s side, last stage first.
    assert_eq!(describe_all(&d), vec!["delete link a:eth0", "delete namespace lab-b"]);
}

#[test]
fn diff_recreates_changed_payloads() {
    let current = Plan { ops: vec![ns("a"), netem("a", "5ms")] };
    let desired = Plan { ops: vec![ns("a"), netem("a", "10ms")] };
    let d = Plan::diff(&current, &desired);
    assert_eq!(describe_all(&d), vec!["clear qdisc on a:eth0", "netem on a:eth0"]);
    assert!(d.ops[0].is_removal());
}

#[test]
fn diff_dedupes_process_kills() {
    let current = Plan { ops: vec![ns("a"), exec("a", 0, true), exec("a", 1, true)] };
    let desired = Plan { ops: vec![ns("a")] };
    let d = Plan::diff(&current, &desired);
    assert_eq!(describe_all(&d), vec!["stop background processes of a"]);
}

#[test]
fn diff_runs_one_shot_ops_for_new_nodes_only() {
    let current = Plan { ops: vec![ns("a"), exec("a", 0, false)] };
    let desired = Plan { ops: vec![ns("a"), exec("a", 0, false), ns("b"), exec("b", 0, false)] };
    let d = Plan::diff(&current, &desired);
    assert_eq!(describe_all(&d), vec!["create namespace lab-b for b", "b: exec[0] sleep 1"]);
}

#[test]
fn apply_report_counts_and_describes() {
    let current = Plan { ops: vec![ns("a"), netem("a", "5ms")] };
    let desired = Plan { ops: vec![ns("a"), netem("a", "10ms"), ns("b")] };
    let d = Plan::diff(&current, &desired);
    let report = apply_report(&d);
    assert_eq!(report.ops, 3);
    assert_eq!(report.removed, 1);
    assert_eq!(
        report.applied,
        vec!["clear qdisc on a:eth0", "create namespace lab-b for b", "netem on a:eth0"]
    );
}

#[test]
fn diff_runs_new_and_reconciling_ops_and_removes_dropped_ones() {
    let stack = |n: &str| Op::Stack { node: n.to_string() };
    let current = Plan { ops: vec![ns("a"), ns("b"), stack("a"), veth("a", "b")] };
    let desired = Plan { ops: vec![ns("a"), ns("c"), stack("a")] };
    let d = Plan::diff(&current, &desired);
    let keys: Vec<String> = d.ops.iter().map(|o| o.key()).collect();
    // the new namespace and the reconciling stack run
    assert!(d.ops.iter().any(|o| o.key() == ns("c").key() && !o.is_removal()));
    assert!(d.ops.iter().any(|o| o.key() == stack("a").key()));
    // b's namespace and the veth go; a's namespace stays untouched
    assert!(d.ops.iter().any(|o| o.is_removal() && o.key() == ns("b").key()));
    assert!(d.ops.iter().any(|o| o.is_removal() && o.key() == veth("a", "b").key()));
    assert!(!keys.contains(&ns("a").key()));
}

#[test]
fn diff_removes_inverses_then_runs_in_stage_order() {
    let current = Plan { ops: vec![ns("a"), ns("b"), veth("a", "b")] };
    let desired = Plan { ops: vec![netem("a", "10ms"), ns("a"), ns("c")] };
    let d = Plan::diff(&current, &desired);
    let shown: Vec<String> = d.ops.iter().map(|o| format!("{o:?}")).collect();
    assert_eq!(shown.len(), 4, "{shown:?}");
    assert!(matches!(&d.ops[0], Op::DeleteLink { node, iface } if node == "a" && iface == "eth0"));
    assert!(matches!(&d.ops[1], Op::DeleteNamespace { node, ns } if node == "b" && ns == "lab-b"));
    assert!(matches!(&d.ops[2], Op::CreateNamespace { node, .. } if node == "c"));
    assert!(matches!(&d.ops[3], Op::Netem { node, .. } if node == "a"));
}
