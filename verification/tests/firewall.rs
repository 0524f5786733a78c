use nlink_lab::error::Error;
use nlink_lab::firewall::{
    apply_match_expr, topology_to_nftables_config, validate_nat_rule_literals, CtStates, NftTable, Policy, RuleMatch,
    Verdict,
};
use nlink_lab::types::{FirewallConfig, FirewallRule, NatAction, NatConfig, NatRule};
use nlink_lab::map::StrMap;
use nlink_lab::routes::AddrFacts;

/// The parsed forms of the addresses the expressions below use.
fn facts() -> StrMap<AddrFacts> {
    let mut m = StrMap::new();
    for (text, v6) in [("10.0.1.0", false), ("192.168.0.1", false), ("10.0.2.0", false), ("fd00::1", true)] {
        m.insert(text.to_string(), AddrFacts { v6: Some(v6), network: None, shown: Some(text.to_string()) });
    }
    m
}

/// The matches an expression adds to a new rule.
fn apply(expr: &str) -> Result<Vec<RuleMatch>, Error> {
    apply_match_expr(Vec::new(), expr, &facts())
}

#[test]
fn deploy_test_apply_match_expr_tcp_dport() {
    let result = apply("tcp dport 80");
    assert!(result.is_ok());
}

#[test]
fn mod_test_apply_match_expr_tcp_dport() {
    let result = apply("tcp dport 80");
    assert!(result.is_ok());
}

#[test]
fn deploy_test_apply_match_expr_udp_dport() {
    let result = apply("udp dport 53");
    assert!(result.is_ok());
}

#[test]
fn mod_test_apply_match_expr_udp_dport() {
    let result = apply("udp dport 53");
    assert!(result.is_ok());
}

#[test]
fn deploy_test_apply_match_expr_ct_state() {
    let result = apply("ct state established,related");
    assert!(result.is_ok());
}

#[test]
fn mod_test_apply_match_expr_ct_state() {
    let result = apply("ct state established,related");
    assert!(result.is_ok());
}

#[test]
fn deploy_test_apply_match_expr_tcp_sport() {
    let result = apply("tcp sport 8080");
    assert!(result.is_ok());
}

#[test]
fn mod_test_apply_match_expr_tcp_sport() {
    let result = apply("tcp sport 8080");
    assert!(result.is_ok());
}

#[test]
fn deploy_test_apply_match_expr_udp_sport() {
    let result = apply("udp sport 5353");
    assert!(result.is_ok());
}

#[test]
fn mod_test_apply_match_expr_udp_sport() {
    let result = apply("udp sport 5353");
    assert!(result.is_ok());
}

#[test]
fn deploy_test_apply_match_expr_icmp_type() {
    let result = apply("icmp type 8");
    assert!(result.is_ok());
}

#[test]
fn mod_test_apply_match_expr_icmp_type() {
    let result = apply("icmp type 8");
    assert!(result.is_ok());
}

#[test]
fn deploy_test_apply_match_expr_icmpv6_type() {
    let result = apply("icmpv6 type 128");
    assert!(result.is_ok());
}

#[test]
fn mod_test_apply_match_expr_icmpv6_type() {
    let result = apply("icmpv6 type 128");
    assert!(result.is_ok());
}

#[test]
fn deploy_test_apply_match_expr_mark() {
    let result = apply("mark 42");
    assert!(result.is_ok());
}

#[test]
fn mod_test_apply_match_expr_mark() {
    let result = apply("mark 42");
    assert!(result.is_ok());
}

#[test]
fn deploy_test_apply_match_expr_ip_saddr() {
    let result = apply("ip saddr 10.0.1.0/24");
    assert!(result.is_ok());
}

#[test]
fn mod_test_apply_match_expr_ip_saddr() {
    let result = apply("ip saddr 10.0.1.0/24");
    assert!(result.is_ok());
}

#[test]
fn deploy_test_apply_match_expr_ip_daddr() {
    let result = apply("ip daddr 192.168.0.1/32");
    assert!(result.is_ok());
}

#[test]
fn mod_test_apply_match_expr_ip_daddr() {
    let result = apply("ip daddr 192.168.0.1/32");
    assert!(result.is_ok());
}

#[test]
fn deploy_test_apply_match_expr_compound_saddr_tcp() {
    let result = apply("ip saddr 10.0.1.0/24 tcp dport 22");
    assert!(result.is_ok());
}

#[test]
fn mod_test_apply_match_expr_compound_saddr_tcp() {
    let result = apply("ip saddr 10.0.1.0/24 tcp dport 22");
    assert!(result.is_ok());
}

#[test]
fn deploy_test_apply_match_expr_compound_daddr_udp() {
    let result = apply("ip daddr 10.0.2.0/24 udp dport 53");
    assert!(result.is_ok());
}

#[test]
fn mod_test_apply_match_expr_compound_daddr_udp() {
    let result = apply("ip daddr 10.0.2.0/24 udp dport 53");
    assert!(result.is_ok());
}

#[test]
fn deploy_test_apply_match_expr_ip_saddr_bad_cidr() {
    let result = apply("ip saddr not-a-cidr");
    assert!(result.is_err());
    assert!(result.unwrap_err().to_text().contains("CIDR"));
}

#[test]
fn mod_test_apply_match_expr_ip_saddr_bad_cidr() {
    let result = apply("ip saddr not-a-cidr");
    assert!(result.is_err());
    assert!(result.unwrap_err().to_text().contains("CIDR"));
}

#[test]
fn deploy_test_apply_match_expr_unknown_errors() {
    let result = apply("unknown expression");
    assert!(result.is_err());
    assert!(result.unwrap_err().to_text().contains("unsupported"));
}

#[test]
fn mod_test_apply_match_expr_unknown_errors() {
    let result = apply("unknown expression");
    assert!(result.is_err());
    assert!(result.unwrap_err().to_text().contains("unsupported"));
}

#[test]
fn match_expr_values() {
    let ms = apply("  ip saddr 10.0.1.0/24 tcp dport 22 ct state established,bogus,related mark 7 ").unwrap();
    assert_eq!(ms.len(), 4);
    assert!(matches!(&ms[0], RuleMatch::Saddr4 { addr, prefix: 24 } if addr == "10.0.1.0"));
    assert!(matches!(ms[1], RuleMatch::TcpDport(22)));
    // Unknown state names add nothing.
    assert!(matches!(
        ms[2],
        RuleMatch::CtState(CtStates { established: true, related: true, new: false, invalid: false })
    ));
    assert!(matches!(ms[3], RuleMatch::Mark(7)));
    let ms = apply_match_expr(ms, "icmpv6 type 128 udp sport 5353", &facts()).unwrap();
    assert_eq!(ms.len(), 6);
    assert!(matches!(ms[4], RuleMatch::Icmpv6Type(128)));
    assert!(matches!(ms[5], RuleMatch::UdpSport(5353)));
}

#[test]
fn match_expr_error_messages() {
    let text = |e: &str| apply(e).unwrap_err().to_text();
    assert_eq!(
        text("ip saddr 10.0.1.0/40"),
        "deploy failed: invalid IPv4 CIDR '10.0.1.0/40' in firewall rule: invalid topology: prefix length 40 exceeds 32"
    );
    assert_eq!(
        text("ip daddr fd00::1/64"),
        "deploy failed: invalid IPv4 CIDR 'fd00::1/64' in firewall rule: invalid topology: invalid IP address: invalid IPv4 address syntax"
    );
    assert_eq!(text("tcp dport 70000"), "deploy failed: invalid port '70000' in firewall rule");
    assert_eq!(text("icmp type 300"), "deploy failed: invalid ICMP type '300' in firewall rule");
    assert_eq!(text("mark x"), "deploy failed: invalid mark 'x' in firewall rule");
    assert_eq!(
        text("ip6 saddr fd00::1/64"),
        "deploy failed: IPv6 saddr/daddr matching is not yet supported in firewall rules: 'ip6 saddr fd00::1/64'"
    );
    assert_eq!(
        text("tcp dport"),
        "deploy failed: unsupported firewall match token 'tcp' in expression: 'tcp dport'. Supported: 'ip saddr/daddr CIDR', 'ct state ...', 'tcp dport/sport N', 'udp dport/sport N', 'icmp type N', 'icmpv6 type N', 'mark N'"
    );
    // A state list is one word: what follows a space starts a new match.
    assert!(text("ct state established, related").contains("unsupported firewall match token 'related'"));
    assert!(apply("").unwrap().is_empty());
}

fn nat_facts() -> StrMap<AddrFacts> {
    let mut m = facts();
    for text in ["10.0.0.0", "203.0.113.1", "10.0.0.10"] {
        m.insert(text.to_string(), AddrFacts { v6: Some(false), network: None, shown: Some(text.to_string()) });
    }
    m.insert("999.999.999.999".to_string(), AddrFacts { v6: None, network: None, shown: None });
    m
}

fn chain_names(t: &NftTable) -> Vec<&str> {
    t.chains.iter().map(|c| c.name.as_str()).collect()
}

#[test]
fn nftables_config_empty_inputs_produce_empty_config() {
    let cfg = topology_to_nftables_config(None, None, &nat_facts()).unwrap();
    assert!(cfg.is_empty(), "no fw + no nat must produce zero tables");
}

#[test]
fn nftables_config_firewall_only_has_filter_chains() {
    let fw = FirewallConfig {
        policy: Some("drop".into()),
        rules: vec![
            FirewallRule { match_expr: Some("tcp dport 80".into()), action: Some("accept".into()) },
            FirewallRule { match_expr: Some("tcp dport 22".into()), action: Some("accept".into()) },
        ],
    };
    let cfg = topology_to_nftables_config(Some(&fw), None, &nat_facts()).unwrap();
    assert_eq!(cfg.len(), 1, "exactly one table");
    let table = cfg.first().unwrap();
    let chain_names = chain_names(table);
    assert!(
        chain_names.contains(&"input") && chain_names.contains(&"forward"),
        "expected input + forward chains, got {chain_names:?}"
    );
    assert!(!chain_names.contains(&"prerouting"), "NAT chains must not be present without NAT config");
}

#[test]
fn nftables_config_nat_only_has_nat_chains() {
    let nat = NatConfig {
        rules: vec![NatRule {
            action: NatAction::Masquerade,
            src: Some("10.0.0.0/24".into()),
            dst: None,
            target: None,
            target_port: None,
        }],
    };
    let cfg = topology_to_nftables_config(None, Some(&nat), &nat_facts()).unwrap();
    assert_eq!(cfg.len(), 1);
    let chain_names = chain_names(cfg.first().unwrap());
    assert!(
        chain_names.contains(&"prerouting") && chain_names.contains(&"postrouting"),
        "expected prerouting + postrouting, got {chain_names:?}"
    );
    assert!(!chain_names.contains(&"input"), "filter chains must not be present without firewall config");
}

#[test]
fn nftables_config_fw_and_nat_share_one_table() {
    let fw = FirewallConfig {
        policy: Some("accept".into()),
        rules: vec![FirewallRule { match_expr: Some("tcp dport 22".into()), action: Some("accept".into()) }],
    };
    let nat = NatConfig {
        rules: vec![NatRule {
            action: NatAction::Dnat,
            src: None,
            dst: Some("203.0.113.1/32".into()),
            target: Some("10.0.0.10".into()),
            target_port: Some(8080),
        }],
    };
    let cfg = topology_to_nftables_config(Some(&fw), Some(&nat), &nat_facts()).unwrap();
    assert_eq!(cfg.len(), 1, "both fw and nat must collapse into one nlink-lab table");
    let table = cfg.first().unwrap();
    let chain_names = chain_names(table);
    for expected in ["input", "forward", "prerouting", "postrouting"] {
        assert!(chain_names.contains(&expected), "expected chain '{expected}' in unified config, got {chain_names:?}");
    }
    assert_eq!(table.name, "nlink-lab");
    let keys: Vec<&str> = table.rules.iter().map(|r| r.key.as_str()).collect();
    assert_eq!(keys, vec!["nlink-lab/fw/input/0", "nlink-lab/nat/prerouting/0/dnat"]);
    assert!(matches!(&table.rules[1].verdict, Some(Verdict::Dnat { addr, port: Some(8080) }) if addr == "10.0.0.10"));
    assert!(matches!(&table.rules[1].matches[0], RuleMatch::Daddr4 { addr, prefix: 32 } if addr == "203.0.113.1"));
}

#[test]
fn nftables_config_invalid_match_expr_surfaces_early() {
    let fw = FirewallConfig {
        policy: None,
        rules: vec![FirewallRule {
            match_expr: Some("ip saddr 999.999.999.999/24".into()),
            action: Some("accept".into()),
        }],
    };
    let err = topology_to_nftables_config(Some(&fw), None, &nat_facts()).unwrap_err().to_text();
    assert!(err.contains("invalid IPv4 CIDR"), "want validation error from up-front match_expr check, got: {err}");
}

#[test]
fn nftables_config_invalid_nat_cidr_surfaces_via_validate() {
    let nat = NatConfig {
        rules: vec![NatRule {
            action: NatAction::Masquerade,
            src: Some("not-a-cidr".into()),
            dst: None,
            target: None,
            target_port: None,
        }],
    };
    let err = validate_nat_rule_literals(&nat, &nat_facts()).unwrap_err().to_text();
    assert!(err.contains("invalid src CIDR"), "want CIDR error from validate, got: {err}");
}

#[test]
fn nftables_config_invalid_nat_target_surfaces_via_validate() {
    let nat = NatConfig {
        rules: vec![NatRule {
            action: NatAction::Snat,
            src: Some("10.0.0.0/24".into()),
            dst: None,
            target: Some("not-an-ip".into()),
            target_port: None,
        }],
    };
    let err = validate_nat_rule_literals(&nat, &nat_facts()).unwrap_err().to_text();
    assert!(err.contains("invalid NAT target"), "want target error from validate, got: {err}");
    assert_eq!(err, "deploy failed: invalid NAT target 'not-an-ip': invalid IPv4 address syntax");
}

#[test]
fn nftables_policy_and_firewall_rule_keys() {
    let fw = FirewallConfig {
        policy: Some("drop".into()),
        rules: vec![
            FirewallRule { match_expr: None, action: None },
            FirewallRule { match_expr: Some("icmp type 8".into()), action: Some("drop".into()) },
        ],
    };
    let cfg = topology_to_nftables_config(Some(&fw), None, &nat_facts()).unwrap();
    let table = &cfg[0];
    assert!(table.chains.iter().all(|c| c.policy == Some(Policy::Drop)));
    assert_eq!(table.rules.len(), 2);
    assert!(table.rules.iter().all(|r| r.chain == "input"));
    assert!(table.rules[0].matches.is_empty() && matches!(table.rules[0].verdict, Some(Verdict::Accept)));
    assert!(matches!(table.rules[1].matches[0], RuleMatch::IcmpType(8)));
    assert!(matches!(table.rules[1].verdict, Some(Verdict::Drop)));
    assert_eq!(table.rules[1].key, "nlink-lab/fw/input/1");
}
