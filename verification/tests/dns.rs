use nlink_lab::builder::Lab;
use nlink_lab::dns::{
    check_netns_name, generate_hosts_entries, inject_hosts, netns_hosts, parse_nameserver,
    remove_all_hosts, remove_hosts, remove_section, resolv_conf, section_end, section_start,
    strip_prefix_len, HostsEntry,
};
use nlink_lab::error::Error;

fn entry(ip: &str, names: &[&str]) -> HostsEntry {
    HostsEntry { ip: ip.to_string(), names: names.iter().map(|s| s.to_string()).collect() }
}

#[test]
fn test_parse_nameserver() {
    assert_eq!(
        parse_nameserver("nameserver 1.1.1.1\nnameserver 8.8.8.8\n"),
        Some("1.1.1.1".into())
    );
}

#[test]
fn test_parse_nameserver_skips_stub() {
    assert_eq!(
        parse_nameserver("nameserver 127.0.0.53\nnameserver 1.1.1.1\n"),
        Some("1.1.1.1".into())
    );
}

#[test]
fn test_parse_nameserver_skips_loopback() {
    assert_eq!(
        parse_nameserver("nameserver 127.0.0.1\nnameserver ::1\nnameserver 9.9.9.9\n"),
        Some("9.9.9.9".into())
    );
}

#[test]
fn test_parse_nameserver_empty() {
    assert_eq!(parse_nameserver("# no nameservers\n"), None);
}

#[test]
fn test_strip_prefix_len() {
    assert_eq!(strip_prefix_len("10.0.0.1/24"), Some("10.0.0.1".into()));
    assert_eq!(strip_prefix_len("fd00::1/64"), Some("fd00::1".into()));
    assert_eq!(strip_prefix_len("10.0.0.1"), Some("10.0.0.1".into()));
    assert_eq!(strip_prefix_len(""), None);
}

#[test]
fn strip_prefix_len_of_bare_prefix_is_none() {
    assert_eq!(strip_prefix_len("/24"), None);
}

#[test]
fn parse_nameserver_trims_and_skips_blank() {
    assert_eq!(parse_nameserver("  nameserver   \n\tnameserver  4.4.4.4  \r\n"), Some("4.4.4.4".into()));
    assert_eq!(parse_nameserver(""), None);
}

#[test]
fn markers_name_the_lab() {
    assert_eq!(section_start("mylab"), "###### NLINK-LAB-mylab-START ######");
    assert_eq!(section_end("mylab"), "###### NLINK-LAB-mylab-END ######");
}

#[test]
fn test_generate_hosts_entries() {
    let topo = Lab::new("test")
        .node("server", |n| n)
        .node("client", |n| n)
        .link("server:eth0", "client:eth0", |l| l.addresses("10.0.0.1/24", "10.0.0.2/24"))
        .build();
    let entries = generate_hosts_entries(&topo);
    assert_eq!(entries.len(), 2);
    assert_eq!(entries[0].ip, "10.0.0.2");
    assert_eq!(entries[0].names, vec!["client", "client-eth0"]);
    assert_eq!(entries[1].ip, "10.0.0.1");
    assert_eq!(entries[1].names, vec!["server", "server-eth0"]);
}

#[test]
fn test_generate_hosts_multi_homed() {
    let topo = Lab::new("test")
        .node("router", |n| n)
        .node("h1", |n| n)
        .node("h2", |n| n)
        .link("router:eth0", "h1:eth0", |l| l.addresses("10.0.1.1/24", "10.0.1.2/24"))
        .link("router:eth1", "h2:eth0", |l| l.addresses("10.0.2.1/24", "10.0.2.2/24"))
        .build();
    let entries = generate_hosts_entries(&topo);
    let router: Vec<_> = entries.iter().filter(|e| e.names.iter().any(|n| n.starts_with("router"))).collect();
    assert_eq!(router.len(), 2);
    // First router entry gets bare name
    assert!(router[0].names.contains(&"router".to_string()));
    // Second only gets alias
    assert!(!router[1].names.contains(&"router".to_string()));
    assert_eq!(router[0].names, vec!["router", "router-eth0"]);
    assert_eq!(router[1].names, vec!["router-eth1"]);
}

#[test]
fn test_generate_hosts_no_addresses() {
    let topo = Lab::new("test").node("a", |n| n).node("b", |n| n).link("a:eth0", "b:eth0", |l| l).build();
    let entries = generate_hosts_entries(&topo);
    assert!(entries.is_empty(), "no addresses => no hosts entries");
}

#[test]
fn test_generate_hosts_ipv6() {
    let topo = Lab::new("test")
        .node("a", |n| n)
        .node("b", |n| n)
        .link("a:eth0", "b:eth0", |l| l.addresses("fd00::1/64", "fd00::2/64"))
        .build();
    let entries = generate_hosts_entries(&topo);
    assert_eq!(entries.len(), 2);
    assert!(entries.iter().any(|e| e.ip == "fd00::1"), "should contain IPv6 address");
}

#[test]
fn generate_hosts_bridge_ports() {
    let topo = Lab::new("test")
        .node("a", |n| n)
        .network("lan", |n| n.port("a:eth1", |p| p.address("192.168.1.5/24")))
        .build();
    let entries = generate_hosts_entries(&topo);
    assert_eq!(entries, vec![entry("192.168.1.5", &["a", "a-eth1"])]);
}

/// The hosts file after an update that returns the new text, if any.
fn apply(content: &str, update: Option<String>) -> String {
    update.unwrap_or_else(|| content.to_string())
}

#[test]
fn test_inject_hosts() {
    let entries = vec![
        entry("10.0.0.1", &["server", "server-eth0"]),
        entry("10.0.0.2", &["client", "client-eth0"]),
    ];
    let original = "127.0.0.1\tlocalhost\n";
    let content = apply(original, inject_hosts(original, "mylab", &entries));
    assert!(content.contains("127.0.0.1\tlocalhost"));
    assert!(content.contains("###### NLINK-LAB-mylab-START ######"));
    assert!(content.contains("10.0.0.1\tserver\tserver-eth0"));
    assert!(content.contains("10.0.0.2\tclient\tclient-eth0"));
    assert!(content.contains("###### NLINK-LAB-mylab-END ######"));
    assert_eq!(
        content,
        "127.0.0.1\tlocalhost\n###### NLINK-LAB-mylab-START ######\n10.0.0.1\tserver\tserver-eth0\n10.0.0.2\tclient\tclient-eth0\n###### NLINK-LAB-mylab-END ######\n"
    );
}

#[test]
fn test_inject_hosts_idempotent() {
    let entries = vec![entry("10.0.0.1", &["server"])];
    let original = "127.0.0.1\tlocalhost\n";
    let once = apply(original, inject_hosts(original, "mylab", &entries));
    let content = apply(&once, inject_hosts(&once, "mylab", &entries));
    let start_count = content.matches("NLINK-LAB-mylab-START").count();
    assert_eq!(start_count, 1, "section should appear exactly once");
    assert_eq!(once, content);
}

#[test]
fn test_inject_hosts_empty_entries() {
    let original = "127.0.0.1\tlocalhost\n";
    // Empty entries should be a no-op
    let update = inject_hosts(original, "mylab", &[]);
    assert_eq!(update, None);
    let content = apply(original, update);
    assert!(!content.contains("NLINK-LAB"), "no section should be written for empty entries");
}

#[test]
fn test_remove_hosts() {
    let content = "\
127.0.0.1\tlocalhost
###### NLINK-LAB-mylab-START ######
10.0.0.1\tserver
###### NLINK-LAB-mylab-END ######
";
    let result = apply(content, remove_hosts(content, "mylab"));
    assert!(result.contains("localhost"));
    assert!(!result.contains("NLINK-LAB"));
    assert!(!result.contains("server"));
    assert_eq!(result, "127.0.0.1\tlocalhost\n");
}

#[test]
fn test_remove_hosts_missing_section() {
    let original = "127.0.0.1\tlocalhost\n";
    // Should be a no-op, not an error
    let update = remove_hosts(original, "nonexistent");
    assert_eq!(update, None);
    assert_eq!(apply(original, update), "127.0.0.1\tlocalhost\n");
}

#[test]
fn test_multiple_labs() {
    let original = "127.0.0.1\tlocalhost\n";
    let entries_a = vec![entry("10.0.0.1", &["server-a"])];
    let entries_b = vec![entry("10.1.0.1", &["server-b"])];
    let c1 = apply(original, inject_hosts(original, "lab-a", &entries_a));
    let content = apply(&c1, inject_hosts(&c1, "lab-b", &entries_b));
    assert!(content.contains("server-a"));
    assert!(content.contains("server-b"));
    // Remove only lab-a
    let content = apply(&content, remove_hosts(&content, "lab-a"));
    assert!(!content.contains("server-a"));
    assert!(content.contains("server-b"));
}

#[test]
fn remove_after_inject_gives_back_rest() {
    let e = vec![entry("10.0.0.1", &["s"])];
    let c = inject_hosts("127.0.0.1\tlocalhost  \n\n", "l", &e).unwrap();
    assert_eq!(remove_section(&c, "l"), "127.0.0.1\tlocalhost\n");
}

#[test]
fn test_remove_all_hosts() {
    let content = "\
127.0.0.1\tlocalhost
###### NLINK-LAB-lab-a-START ######
10.0.0.1\tserver-a
###### NLINK-LAB-lab-a-END ######
###### NLINK-LAB-lab-b-START ######
10.1.0.1\tserver-b
###### NLINK-LAB-lab-b-END ######
";
    let result = apply(content, remove_all_hosts(content));
    assert!(result.contains("localhost"));
    assert!(!result.contains("NLINK-LAB"));
    assert_eq!(result, "127.0.0.1\tlocalhost\n");
    assert_eq!(remove_all_hosts("127.0.0.1\tlocalhost\n"), None);
}

#[test]
fn netns_files() {
    let entries = vec![entry("10.0.0.1", &["server", "server-eth0"])];
    assert_eq!(
        netns_hosts(&entries),
        "127.0.0.1\tlocalhost\n::1\t\tlocalhost\n10.0.0.1\tserver\tserver-eth0\n"
    );
    assert_eq!(resolv_conf("1.1.1.1"), "nameserver 1.1.1.1\n");
}

#[test]
fn check_netns_name_rejects_escapes() {
    assert!(check_netns_name("lab-node").is_ok());
    for bad in ["", ".hidden", "a/b", "a..b", "a\0b"] {
        match check_netns_name(bad) {
            Err(Error::DeployFailed(m)) => {
                assert!(m.starts_with("refusing to touch /etc/netns for unsafe namespace name "), "{m}");
                assert!(m.ends_with(&format!("{bad:?}")), "{m}");
            }
            other => panic!("unexpected {other:?}"),
        }
    }
}

#[test]
fn netns_name_guard() {
    for ok in ["lab-r1", "simple_router", "a.b", "x1"] {
        assert!(check_netns_name(ok).is_ok(), "{ok:?} should be accepted");
    }
    for bad in ["", "..", "../etc", "a/../b", "/etc", "lab/r1", ".nlink-lab", ".hidden", "a\0b"] {
        assert!(check_netns_name(bad).is_err(), "{bad:?} should be rejected");
    }
}

#[test]
fn remove_after_inject_restores_the_file() {
    let h = "127.0.0.1\tlocalhost\n::1\tlocalhost\n";
    let written = nlink_lab::dns::inject_hosts(h, "lab", &[entry("10.0.0.1", &["a"])]).unwrap();
    let back = nlink_lab::dns::remove_hosts(&written, "lab").unwrap();
    assert_eq!(back, h);
    assert_eq!(nlink_lab::dns::remove_hosts(&back, "lab"), None);
}
