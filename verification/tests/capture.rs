use nlink_lab::capture::{
    parse_hex_or_dec, pcap_global_header, pcap_packet_record, record_size, should_rotate,
    stop_after_packet, stop_at_start, stop_before_poll, bpf_program, BpfInsn, CaptureLimits, StopReason,
};
use nlink_lab::cgroup::{cpu_usage_usec, lab_dir, node_dir, parse_trimmed_u64, proc_count};
use nlink_lab::error::Error;

#[test]
fn global_header_layout() {
    let h = pcap_global_header(262144);
    assert_eq!(h.len(), 24);
    assert_eq!(&h[0..4], &0xa1b2_3c4du32.to_le_bytes());
    assert_eq!(&h[4..6], &2u16.to_le_bytes());
    assert_eq!(&h[6..8], &4u16.to_le_bytes());
    assert_eq!(&h[8..16], &[0u8; 8]);
    assert_eq!(&h[16..20], &262144u32.to_le_bytes());
    assert_eq!(&h[20..24], &1u32.to_le_bytes());
}

#[test]
fn packet_record_truncates_to_snap_len() {
    let data = [1u8, 2, 3, 4, 5];
    let r = pcap_packet_record(7, 9, &data, 60, 3);
    assert_eq!(r.len(), 16 + 3);
    assert_eq!(&r[0..4], &7u32.to_le_bytes());
    assert_eq!(&r[4..8], &9u32.to_le_bytes());
    assert_eq!(&r[8..12], &3u32.to_le_bytes());
    assert_eq!(&r[12..16], &60u32.to_le_bytes());
    assert_eq!(&r[16..], &[1, 2, 3]);
    assert_eq!(record_size(5, 3), 19);
    assert_eq!(record_size(2, 3), 18);
}

#[test]
fn rotation_policy() {
    assert!(should_rotate(90, 20, Some(100), false));
    assert!(!should_rotate(80, 20, Some(100), false));
    assert!(should_rotate(0, 0, None, true));
    assert!(!should_rotate(u64::MAX, 10, None, false));
    assert!(should_rotate(u64::MAX, 10, Some(5), false));
}

#[test]
fn loop_count_zero_returns_immediately() {
    let limits = CaptureLimits { count: Some(0), duration: None };
    assert_eq!(stop_at_start(&limits), Some(StopReason::CountReached));
    assert_eq!(stop_at_start(&CaptureLimits::default()), None);
}

#[test]
fn loop_stop_decisions() {
    assert_eq!(stop_before_poll(true, Some(false)), Some(StopReason::Shutdown));
    assert_eq!(stop_before_poll(false, Some(false)), Some(StopReason::Deadline));
    assert_eq!(stop_before_poll(false, Some(true)), None);
    assert_eq!(stop_before_poll(false, None), None);
    let limits = CaptureLimits { count: Some(3), duration: None };
    assert_eq!(stop_after_packet(2, &limits, false), None);
    assert_eq!(stop_after_packet(3, &limits, true), Some(StopReason::CountReached));
    assert_eq!(stop_after_packet(2, &limits, true), Some(StopReason::Shutdown));
}

#[test]
fn bpf_values() {
    assert_eq!(parse_hex_or_dec(" 0x1F "), Ok(31));
    assert_eq!(parse_hex_or_dec("0Xff"), Ok(255));
    assert_eq!(parse_hex_or_dec("443"), Ok(443));
    assert_eq!(parse_hex_or_dec("18446744073709551615"), Ok(u64::MAX));
    assert_eq!(
        parse_hex_or_dec("0xg"),
        Err(Error::Capture("invalid BPF value '0xg': invalid digit found in string".into()))
    );
    assert_eq!(
        parse_hex_or_dec("18446744073709551616"),
        Err(Error::Capture("invalid BPF value '18446744073709551616': number too large to fit in target type".into()))
    );
    assert_eq!(
        parse_hex_or_dec("0x"),
        Err(Error::Capture("invalid BPF value '0x': cannot parse integer from empty string".into()))
    );
}

#[test]
fn cgroup_paths() {
    assert_eq!(lab_dir("l"), "/sys/fs/cgroup/nlink-lab/l");
    assert_eq!(node_dir("l", "n"), "/sys/fs/cgroup/nlink-lab/l/n");
}

#[test]
fn bpf_program_from_tcpdump_dump() {
    let dump = "{ 0x28, 0, 0, 0x0000000c },\n{ 0x15, 0, 1, 0x00000800 },\n{ 0x6, 0, 0, 0x00040000 },\n{ 0x6, 0, 0, 0x00000000 },\n";
    let prog = bpf_program(dump).unwrap();
    assert_eq!(
        prog,
        vec![
            BpfInsn { code: 0x28, jt: 0, jf: 0, k: 0xc },
            BpfInsn { code: 0x15, jt: 0, jf: 1, k: 0x800 },
            BpfInsn { code: 0x6, jt: 0, jf: 0, k: 0x40000 },
            BpfInsn { code: 0x6, jt: 0, jf: 0, k: 0 },
        ]
    );
    // Values are truncated to their field's width, as the casts do.
    let prog = bpf_program("{ 0x10028, 300, 0, 0x1ffffffff },").unwrap();
    assert_eq!(prog, vec![BpfInsn { code: 0x28, jt: 44, jf: 0, k: 0xffff_ffff }]);
}

#[test]
fn bpf_program_errors() {
    match bpf_program("(000) ldh [12]\n") {
        Err(Error::Capture(m)) => assert_eq!(m, "tcpdump produced no BPF instructions"),
        other => panic!("unexpected {other:?}"),
    }
    match bpf_program("{ 0x28, 0, 0, zz },\n") {
        Err(Error::Capture(m)) => assert_eq!(m, "invalid BPF value 'zz': invalid digit found in string"),
        other => panic!("unexpected {other:?}"),
    }
}

#[test]
fn cgroup_counters_are_read() {
    assert_eq!(cpu_usage_usec("usage_usec 12345\nuser_usec 10000\nsystem_usec 2345\n"), 12345);
    assert_eq!(cpu_usage_usec("user_usec 1\nusage_usec  77 \n"), 77);
    assert_eq!(cpu_usage_usec("user_usec 1\n"), 0);
    assert_eq!(cpu_usage_usec("usage_usec lots\nusage_usec 5\n"), 0);
    assert_eq!(parse_trimmed_u64("268435456\n"), Some(268435456));
    assert_eq!(parse_trimmed_u64("max\n"), None);
    assert_eq!(proc_count("101\n102\n\n  \n103"), 3);
    assert_eq!(proc_count(""), 0);
}
