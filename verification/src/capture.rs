//! Packet capture: the pcap file format written, segment rotation, the
//! capture loop's stop decisions, and BPF filter values.
//!
//! Opening sockets, waiting for packets and writing files is left to the
//! caller, which asks these functions what to write and when to stop.
use vstd::prelude::*;
use crate::error::Error;
use crate::container::{IntError, int_error_text, digit_value, is_digit};
use crate::text::{push_str, to_chars, trim, trim_chars, starts_with, starts_with_chars, skip_chars, take_chars,
    string_from_chars, lines, split_lines};

verus! {

/// Magic of a nanosecond-resolution pcap file.
pub const PCAP_MAGIC_NS: u32 = 0xa1b2_3c4d;
pub const PCAP_VERSION_MAJOR: u16 = 2;
pub const PCAP_VERSION_MINOR: u16 = 4;
/// LINKTYPE_ETHERNET
pub const LINKTYPE_ETHERNET: u32 = 1;
/// Size of the pcap global header.
pub const PCAP_GLOBAL_HEADER_BYTES: u64 = 24;
/// Size of a pcap record header.
pub const PCAP_RECORD_HEADER_BYTES: u64 = 16;

/// Little-endian bytes of a 32-bit value.
pub open spec fn le32(x: u32) -> Seq<u8> {
    seq![(x % 256) as u8, ((x / 256) % 256) as u8, ((x / 65536) % 256) as u8, ((x / 16777216) % 256) as u8]
}

/// Little-endian bytes of a 16-bit value.
pub open spec fn le16(x: u16) -> Seq<u8> {
    seq![(x % 256) as u8, ((x / 256) % 256) as u8]
}

fn push_le32(out: &mut Vec<u8>, x: u32)
    ensures
        final(out)@ == old(out)@ + le32(x),
{
    let ghost start = out@;
    out.push((x % 256) as u8);
    out.push(((x / 256) % 256) as u8);
    out.push(((x / 65536) % 256) as u8);
    out.push(((x / 16777216) % 256) as u8);
    assert(out@ =~= start + le32(x));
}

fn push_le16(out: &mut Vec<u8>, x: u16)
    ensures
        final(out)@ == old(out)@ + le16(x),
{
    let ghost start = out@;
    out.push((x % 256) as u8);
    out.push(((x / 256) % 256) as u8);
    assert(out@ =~= start + le16(x));
}

/// The pcap global header: magic, version, zone offset, accuracy, snap
/// length and link type, little-endian.
pub open spec fn global_header(snap_len: u32) -> Seq<u8> {
    le32(PCAP_MAGIC_NS) + le16(PCAP_VERSION_MAJOR) + le16(PCAP_VERSION_MINOR) + le32(0) + le32(0)
        + le32(snap_len) + le32(LINKTYPE_ETHERNET)
}

/// The 24-byte global header a pcap file starts with.
pub fn pcap_global_header(snap_len: u32) -> (h: Vec<u8>)
    ensures
        h@ == global_header(snap_len),
        h@.len() == PCAP_GLOBAL_HEADER_BYTES,
{
    let mut h: Vec<u8> = Vec::new();
    push_le32(&mut h, PCAP_MAGIC_NS);
    push_le16(&mut h, PCAP_VERSION_MAJOR);
    push_le16(&mut h, PCAP_VERSION_MINOR);
    push_le32(&mut h, 0);
    push_le32(&mut h, 0);
    push_le32(&mut h, snap_len);
    push_le32(&mut h, LINKTYPE_ETHERNET);
    h
}

/// How much of a packet of `len` bytes is stored under snap length `snap`.
pub open spec fn included_len(len: int, snap: u32) -> int {
    if len < snap { len } else { snap as int }
}

/// A pcap packet record: the 16-byte header (seconds, nanoseconds, stored
/// length, original length), then the stored part of the data.
pub open spec fn packet_record(sec: u32, nsec: u32, data: Seq<u8>, orig_len: u32, snap: u32) -> Seq<u8> {
    le32(sec) + le32(nsec) + le32(included_len(data.len() as int, snap) as u32) + le32(orig_len)
        + data.take(included_len(data.len() as int, snap))
}

/// The bytes of one packet record.
pub fn pcap_packet_record(sec: u32, nsec: u32, data: &[u8], orig_len: u32, snap_len: u32) -> (r: Vec<u8>)
    ensures
        r@ == packet_record(sec, nsec, data@, orig_len, snap_len),
{
    let incl: u32 = if data.len() < snap_len as usize { data.len() as u32 } else { snap_len };
    let mut r: Vec<u8> = Vec::new();
    push_le32(&mut r, sec);
    push_le32(&mut r, nsec);
    push_le32(&mut r, incl);
    push_le32(&mut r, orig_len);
    let ghost head = r@;
    let mut i: usize = 0;
    while i < incl as usize
        invariant
            incl as int == included_len(data@.len() as int, snap_len),
            i <= incl,
            incl <= data@.len(),
            r@ == head + data@.take(i as int),
        decreases incl - i,
    {
        r.push(data[i]);
        i = i + 1;
        assert(r@ =~= head + data@.take(i as int));
    }
    r
}

/// Size a packet of `data_len` bytes takes in the file.
pub fn record_size(data_len: usize, snap_len: u32) -> (n: u64)
    ensures
        n == PCAP_RECORD_HEADER_BYTES + included_len(data_len as int, snap_len),
{
    if (data_len as u64) < (snap_len as u64) {
        PCAP_RECORD_HEADER_BYTES + data_len as u64
    } else {
        PCAP_RECORD_HEADER_BYTES + snap_len as u64
    }
}

/// Whether the active segment is rotated before a packet of
/// `next_pkt_size` bytes: the size limit would be passed, or the segment
/// has been open for the rotation period (`period_elapsed`).
pub fn should_rotate(bytes_written: u64, next_pkt_size: u64, max_size: Option<u64>, period_elapsed: bool) -> (b: bool)
    ensures
        b == ((max_size matches Some(m) && bytes_written + next_pkt_size > m) || period_elapsed),
{
    match max_size {
        Some(m) => {
            if next_pkt_size > m || bytes_written > m - next_pkt_size {
                return true;
            }
        },
        None => {},
    }
    period_elapsed
}

// ─── The capture loop's decisions ───────────────────────────────────

/// Why a capture loop stopped.
#[derive(Debug, Clone, Copy, PartialEq, Eq, Structural)]
pub enum StopReason {
    /// The shutdown flag was raised.
    Shutdown,
    /// The capture duration elapsed.
    Deadline,
    /// The packet count was reached.
    CountReached,
}

/// Stop conditions of a capture loop.
#[derive(Debug, Clone, Copy, Default)]
pub struct CaptureLimits {
    /// Stop after N packets.
    pub count: Option<u64>,
    /// Stop after this duration (measured from loop entry).
    pub duration: Option<core::time::Duration>,
}

/// Whether the loop stops before waiting for any packet: a count of `0`
/// stops at once.
pub fn stop_at_start(limits: &CaptureLimits) -> (r: Option<StopReason>)
    ensures
        r == (if limits.count == Some(0u64) { Some(StopReason::CountReached) } else { None }),
{
    match limits.count {
        Some(0) => Some(StopReason::CountReached),
        _ => None,
    }
}

/// Whether the loop stops before a poll: on shutdown, else once the
/// deadline (if any) has no time left.
pub fn stop_before_poll(shutdown: bool, deadline_left: Option<bool>) -> (r: Option<StopReason>)
    ensures
        r == (if shutdown {
            Some(StopReason::Shutdown)
        } else if deadline_left == Some(false) {
            Some(StopReason::Deadline)
        } else {
            None
        }),
{
    if shutdown {
        Some(StopReason::Shutdown)
    } else {
        match deadline_left {
            Some(false) => Some(StopReason::Deadline),
            _ => None,
        }
    }
}

/// Whether the loop stops after delivering its `count`-th packet: once the
/// packet count is reached, else on shutdown.
pub fn stop_after_packet(count: u64, limits: &CaptureLimits, shutdown: bool) -> (r: Option<StopReason>)
    ensures
        r == (if limits.count matches Some(max) && count >= max {
            Some(StopReason::CountReached)
        } else if shutdown {
            Some(StopReason::Shutdown)
        } else {
            None
        }),
{
    match limits.count {
        Some(max) => {
            if count >= max {
                return Some(StopReason::CountReached);
            }
        },
        None => {},
    }
    if shutdown {
        Some(StopReason::Shutdown)
    } else {
        None
    }
}

// ─── BPF filter values ──────────────────────────────────────────────

/// The value of a hexadecimal digit character.
pub open spec fn hex_value(c: char) -> int {
    if '0' <= c && c <= '9' {
        c as int - '0' as int
    } else if 'a' <= c && c <= 'f' {
        c as int - 'a' as int + 10
    } else {
        c as int - 'A' as int + 10
    }
}

pub open spec fn is_hex(c: char) -> bool {
    ('0' <= c && c <= '9') || ('a' <= c && c <= 'f') || ('A' <= c && c <= 'F')
}

/// Left-to-right reading of `ds[0..n]` in base 10 or 16: the value, or the
/// first error met (a non-digit, or a value past `u64::MAX`).
pub open spec fn read_u64(ds: Seq<char>, n: int, hex: bool) -> Result<int, IntError>
    decreases n,
{
    if n <= 0 {
        Ok(0)
    } else {
        match read_u64(ds, n - 1, hex) {
            Err(e) => Err(e),
            Ok(v) => {
                let c = ds[n - 1];
                let ok = if hex { is_hex(c) } else { is_digit(c) };
                let d = if hex { hex_value(c) } else { digit_value(c) };
                let base = if hex { 16int } else { 10int };
                if !ok {
                    Err(IntError::InvalidDigit)
                } else if v * base + d > u64::MAX {
                    Err(IntError::PosOverflow)
                } else {
                    Ok(v * base + d)
                }
            },
        }
    }
}

/// `u64` parsing in base 10 or 16, as std's parser does it: an optional
/// `+`, then at least one digit.
pub open spec fn parse_u64_spec(s: Seq<char>, hex: bool) -> Result<int, IntError> {
    if s.len() == 0 {
        Err(IntError::Empty)
    } else if s[0] == '+' {
        if s.len() == 1 {
            Err(IntError::InvalidDigit)
        } else {
            read_u64(s.skip(1), s.len() - 1, hex)
        }
    } else {
        read_u64(s, s.len() as int, hex)
    }
}

proof fn lemma_read_u64_stops(ds: Seq<char>, n: int, hex: bool)
    requires
        0 < n <= ds.len(),
        read_u64(ds, n, hex) is Err,
    ensures
        read_u64(ds, ds.len() as int, hex) == read_u64(ds, n, hex),
    decreases ds.len() - n,
{
    if n < ds.len() {
        lemma_read_u64_stops(ds, n + 1, hex);
    }
}

fn read_u64_exec(ds: &[char], hex: bool) -> (r: Result<u64, IntError>)
    ensures
        match read_u64(ds@, ds@.len() as int, hex) {
            Ok(v) => r matches Ok(x) && x == v,
            Err(e) => r == Err::<u64, IntError>(e),
        },
{
    let base: u64 = if hex { 16 } else { 10 };
    let mut v: u64 = 0;
    let mut i: usize = 0;
    while i < ds.len()
        invariant
            i <= ds@.len(),
            base == (if hex { 16u64 } else { 10u64 }),
            read_u64(ds@, i as int, hex) == Ok::<int, IntError>(v as int),
        decreases ds@.len() - i,
    {
        let c = ds[i];
        let d: u64 = if hex {
            if '0' <= c && c <= '9' {
                (c as u64) - ('0' as u64)
            } else if 'a' <= c && c <= 'f' {
                (c as u64) - ('a' as u64) + 10
            } else if 'A' <= c && c <= 'F' {
                (c as u64) - ('A' as u64) + 10
            } else {
                proof { lemma_read_u64_stops(ds@, i as int + 1, hex); }
                return Err(IntError::InvalidDigit);
            }
        } else {
            if '0' <= c && c <= '9' {
                (c as u64) - ('0' as u64)
            } else {
                proof { lemma_read_u64_stops(ds@, i as int + 1, hex); }
                return Err(IntError::InvalidDigit);
            }
        };
        let lim: u64 = (u64::MAX - d) / base;
        let ghost vi = v as int;
        let ghost li = lim as int;
        let ghost bi = base as int;
        let ghost di = d as int;
        let ghost mx = u64::MAX as int;
        assert(li == (mx - di) / bi);
        if v > lim {
            proof {
                assert(vi * bi + di > mx) by (nonlinear_arith)
                    requires vi > li, li == (mx - di) / bi, bi > 0, 0 <= di <= mx;
                lemma_read_u64_stops(ds@, i as int + 1, hex);
            }
            return Err(IntError::PosOverflow);
        }
        proof {
            assert(vi * bi + di <= mx) by (nonlinear_arith)
                requires 0 <= vi <= li, li == (mx - di) / bi, bi > 0, 0 <= di <= mx;
        }
        v = v * base + d;
        i = i + 1;
    }
    Ok(v)
}

/// Parse text as a `u64` in base 10 or 16.
pub(crate) fn parse_u64(s: &[char], hex: bool) -> (r: Result<u64, IntError>)
    ensures
        match parse_u64_spec(s@, hex) {
            Ok(v) => r matches Ok(x) && x == v,
            Err(e) => r == Err::<u64, IntError>(e),
        },
{
    if s.len() == 0 {
        return Err(IntError::Empty);
    }
    if s[0] == '+' {
        if s.len() == 1 {
            return Err(IntError::InvalidDigit);
        }
        let rest = skip_chars(s, 1);
        read_u64_exec(rest.as_slice(), hex)
    } else {
        read_u64_exec(s, hex)
    }
}

/// A BPF value: the trimmed text, hexadecimal after `0x` / `0X`, else
/// decimal; or the error's message.
pub open spec fn bpf_value(s: Seq<char>) -> Result<int, Seq<char>> {
    let t = trim(s);
    let r = if starts_with(t, "0x"@) || starts_with(t, "0X"@) {
        parse_u64_spec(t.skip(2), true)
    } else {
        parse_u64_spec(t, false)
    };
    match r {
        Ok(v) => Ok(v),
        Err(e) => Err("invalid BPF value '"@ + t + "': "@ + int_error_text(e)),
    }
}

/// Parse a BPF numeric value, hexadecimal with a `0x` prefix.
pub fn parse_hex_or_dec(s: &str) -> (r: Result<u64, Error>)
    ensures
        match bpf_value(s@) {
            Ok(v) => r matches Ok(x) && x == v,
            Err(m) => r matches Err(Error::Capture(t)) && t@ == m,
        },
{
    let cs = to_chars(s);
    let t = trim_chars(cs.as_slice());
    let p_lower = to_chars("0x");
    let p_upper = to_chars("0X");
    let is_hex_text = starts_with_chars(t.as_slice(), p_lower.as_slice())
        || starts_with_chars(t.as_slice(), p_upper.as_slice());
    let r = if is_hex_text {
        proof { reveal_strlit("0x"); reveal_strlit("0X"); }
        let digits = skip_chars(t.as_slice(), 2);
        parse_u64(digits.as_slice(), true)
    } else {
        parse_u64(t.as_slice(), false)
    };
    match r {
        Ok(v) => Ok(v),
        Err(e) => {
            let mut m = String::new();
            push_str(&mut m, "invalid BPF value '");
            push_str(&mut m, string_from_chars(t.as_slice()).as_str());
            push_str(&mut m, "': ");
            let et = match e {
                IntError::Empty => crate::text::owned("cannot parse integer from empty string"),
                IntError::InvalidDigit => crate::text::owned("invalid digit found in string"),
                IntError::PosOverflow => crate::text::owned("number too large to fit in target type"),
            };
            push_str(&mut m, et.as_str());
            Err(Error::Capture(m))
        },
    }
}


// ─── BPF programs from `tcpdump -dd` ────────────────────────────────

/// One classic BPF instruction.
#[derive(Debug, Clone, Copy, PartialEq, Eq, Structural)]
pub struct BpfInsn {
    pub code: u16,
    pub jt: u8,
    pub jf: u8,
    pub k: u32,
}

/// `s` without leading `c`s.
pub open spec fn trim_start_char(s: Seq<char>, c: char) -> Seq<char>
    decreases s.len(),
{
    if s.len() > 0 && s[0] == c { trim_start_char(s.skip(1), c) } else { s }
}

/// What ends a dump line after its last value: commas, braces, spaces.
pub open spec fn is_insn_tail(c: char) -> bool {
    c == ',' || c == '}' || c == ' '
}

/// `s` without trailing commas, closing braces and spaces.
pub open spec fn trim_insn_tail(s: Seq<char>) -> Seq<char>
    decreases s.len(),
{
    if s.len() > 0 && is_insn_tail(s.last()) { trim_insn_tail(s.drop_last()) } else { s }
}

/// The comma scan of the first `n` characters: the fields completed by a
/// comma, and the field in progress.
pub open spec fn field_scan(s: Seq<char>, n: int) -> (Seq<Seq<char>>, Seq<char>)
    decreases n,
{
    if n <= 0 {
        (Seq::empty(), Seq::empty())
    } else {
        let (fs, cur) = field_scan(s, n - 1);
        if s[n - 1] == ',' { (fs.push(cur), Seq::empty()) } else { (fs, cur.push(s[n - 1])) }
    }
}

/// The pieces of `s` between commas, as `str::split(',')` gives them.
pub open spec fn comma_fields(s: Seq<char>) -> Seq<Seq<char>> {
    let (fs, cur) = field_scan(s, s.len() as int);
    fs.push(cur)
}

/// The trimmed fields of a dump line such as `{ 0x28, 0, 0, 0x0000000c },`.
pub open spec fn insn_fields(line: Seq<char>) -> Seq<Seq<char>> {
    comma_fields(trim_insn_tail(trim_start_char(trim(line), '{'))).map_values(|f: Seq<char>| trim(f))
}

/// The instruction a dump line declares (`None` for a line without four
/// fields), or the message of the first value that does not parse. Values
/// are truncated to the width of their field.
pub open spec fn insn_of(line: Seq<char>) -> Option<Result<BpfInsn, Seq<char>>> {
    let f = insn_fields(line);
    if f.len() != 4 {
        None
    } else {
        match bpf_value(f[0]) {
            Err(e) => Some(Err(e)),
            Ok(code) => match bpf_value(f[1]) {
                Err(e) => Some(Err(e)),
                Ok(jt) => match bpf_value(f[2]) {
                    Err(e) => Some(Err(e)),
                    Ok(jf) => match bpf_value(f[3]) {
                        Err(e) => Some(Err(e)),
                        Ok(k) => Some(Ok(BpfInsn {
                            code: (code % 65536) as u16,
                            jt: (jt % 256) as u8,
                            jf: (jf % 256) as u8,
                            k: (k % 4294967296) as u32,
                        })),
                    },
                },
            },
        }
    }
}

/// The instructions of the first `n` lines, or the first error.
pub open spec fn insns_upto(ls: Seq<Seq<char>>, n: int) -> Result<Seq<BpfInsn>, Seq<char>>
    decreases n,
{
    if n <= 0 {
        Ok(Seq::empty())
    } else {
        match insns_upto(ls, n - 1) {
            Err(e) => Err(e),
            Ok(is) => match insn_of(ls[n - 1]) {
                None => Ok(is),
                Some(Err(e)) => Err(e),
                Some(Ok(i)) => Ok(is.push(i)),
            },
        }
    }
}

/// The program `tcpdump -dd` printed, or the error's message: the first
/// value that does not parse, or no instruction at all.
pub open spec fn bpf_program_of(dump: Seq<char>) -> Result<Seq<BpfInsn>, Seq<char>> {
    let ls = lines(dump);
    match insns_upto(ls, ls.len() as int) {
        Err(e) => Err(e),
        Ok(is) => if is.len() == 0 { Err("tcpdump produced no BPF instructions"@) } else { Ok(is) },
    }
}

fn trim_start_char_exec(s: &[char], c: char) -> (r: Vec<char>)
    ensures
        r@ == trim_start_char(s@, c),
{
    let mut i: usize = 0;
    assert(s@.skip(0) =~= s@);
    while i < s.len() && s[i] == c
        invariant
            i <= s@.len(),
            trim_start_char(s@, c) == trim_start_char(s@.skip(i as int), c),
        decreases s@.len() - i,
    {
        assert(s@.skip(i as int).skip(1) =~= s@.skip(i + 1));
        i = i + 1;
    }
    skip_chars(s, i)
}

fn trim_insn_tail_exec(s: &[char]) -> (r: Vec<char>)
    ensures
        r@ == trim_insn_tail(s@),
{
    let mut n: usize = s.len();
    assert(s@.take(s@.len() as int) =~= s@);
    while n > 0 && (s[n - 1] == ',' || s[n - 1] == '}' || s[n - 1] == ' ')
        invariant
            n <= s@.len(),
            trim_insn_tail(s@) == trim_insn_tail(s@.take(n as int)),
        decreases n,
    {
        assert(s@.take(n as int).drop_last() =~= s@.take(n - 1));
        n = n - 1;
    }
    take_chars(s, n)
}

pub(crate) fn comma_fields_exec(s: &[char]) -> (r: Vec<Vec<char>>)
    ensures
        r@.map_values(|f: Vec<char>| f@) == comma_fields(s@),
{
    let mut out: Vec<Vec<char>> = Vec::new();
    let mut cur: Vec<char> = Vec::new();
    let mut i: usize = 0;
    while i < s.len()
        invariant
            i <= s@.len(),
            (out@.map_values(|f: Vec<char>| f@), cur@) == field_scan(s@, i as int),
        decreases s@.len() - i,
    {
        if s[i] == ',' {
            let ghost prev = out@;
            let ghost c = cur@;
            out.push(cur);
            cur = Vec::new();
            assert(out@.map_values(|f: Vec<char>| f@) =~= prev.map_values(|f: Vec<char>| f@).push(c));
            assert(cur@ =~= Seq::<char>::empty());
        } else {
            cur.push(s[i]);
        }
        i = i + 1;
    }
    let ghost prev = out@;
    let ghost c = cur@;
    out.push(cur);
    assert(out@.map_values(|f: Vec<char>| f@) =~= prev.map_values(|f: Vec<char>| f@).push(c));
    out
}

/// The trimmed fields of a dump line (see [`insn_fields`]).
fn insn_fields_exec(line: &[char]) -> (r: Vec<String>)
    ensures
        r@.map_values(|f: String| f@) == insn_fields(line@),
{
    let t = trim_chars(line);
    let t = trim_start_char_exec(t.as_slice(), '{');
    let t = trim_insn_tail_exec(t.as_slice());
    let fs = comma_fields_exec(t.as_slice());
    let ghost raw = fs@.map_values(|f: Vec<char>| f@);
    let mut out: Vec<String> = Vec::new();
    let mut i: usize = 0;
    while i < fs.len()
        invariant
            i <= fs@.len(),
            raw == fs@.map_values(|f: Vec<char>| f@),
            out@.map_values(|f: String| f@) == raw.take(i as int).map_values(|f: Seq<char>| trim(f)),
        decreases fs@.len() - i,
    {
        let ghost prev = out@;
        let f = string_from_chars(trim_chars(fs[i].as_slice()).as_slice());
        out.push(f);
        proof {
            assert(out@.map_values(|f: String| f@) =~= prev.map_values(|f: String| f@).push(f@));
            assert(raw.take(i + 1).map_values(|f: Seq<char>| trim(f))
                =~= raw.take(i as int).map_values(|f: Seq<char>| trim(f)).push(trim(raw[i as int])));
        }
        i = i + 1;
    }
    assert(raw.take(fs@.len() as int) =~= raw);
    out
}

/// The instruction of one dump line (see [`insn_of`]).
fn insn_of_exec(line: &[char]) -> (r: Option<Result<BpfInsn, Error>>)
    ensures
        match insn_of(line@) {
            None => r is None,
            Some(Ok(i)) => r == Some(Ok::<BpfInsn, Error>(i)),
            Some(Err(m)) => r matches Some(Err(Error::Capture(t))) && t@ == m,
        },
{
    let f = insn_fields_exec(line);
    proof {
        assert(f@.len() == insn_fields(line@).len());
    }
    if f.len() != 4 {
        return None;
    }
    proof {
        assert forall|j: int| 0 <= j < 4 implies #[trigger] f@[j]@ == insn_fields(line@)[j] by {
            assert(f@.map_values(|s: String| s@)[j] == f@[j]@);
        }
    }
    let code = match parse_hex_or_dec(f[0].as_str()) {
        Ok(v) => v,
        Err(e) => return Some(Err(e)),
    };
    let jt = match parse_hex_or_dec(f[1].as_str()) {
        Ok(v) => v,
        Err(e) => return Some(Err(e)),
    };
    let jf = match parse_hex_or_dec(f[2].as_str()) {
        Ok(v) => v,
        Err(e) => return Some(Err(e)),
    };
    let k = match parse_hex_or_dec(f[3].as_str()) {
        Ok(v) => v,
        Err(e) => return Some(Err(e)),
    };
    Some(Ok(BpfInsn {
        code: (code % 65536) as u16,
        jt: (jt % 256) as u8,
        jf: (jf % 256) as u8,
        k: (k % 4294967296) as u32,
    }))
}

proof fn lemma_insns_stop(ls: Seq<Seq<char>>, n: int, m: int)
    requires
        0 <= n <= m,
        insns_upto(ls, n) is Err,
    ensures
        insns_upto(ls, m) == insns_upto(ls, n),
    decreases m - n,
{
    if n < m {
        lemma_insns_stop(ls, n, m - 1);
    }
}

/// The BPF program in `tcpdump -dd` output (see [`bpf_program_of`]).
pub fn bpf_program(dump: &str) -> (r: Result<Vec<BpfInsn>, Error>)
    ensures
        match bpf_program_of(dump@) {
            Ok(is) => r matches Ok(v) && v@ == is,
            Err(m) => r matches Err(Error::Capture(t)) && t@ == m,
        },
{
    let cs = to_chars(dump);
    let ls = split_lines(cs.as_slice());
    let ghost lv = ls@.map_values(|l: Vec<char>| l@);
    let mut insns: Vec<BpfInsn> = Vec::new();
    let mut i: usize = 0;
    while i < ls.len()
        invariant
            i <= ls@.len(),
            lv == ls@.map_values(|l: Vec<char>| l@),
            lv == lines(dump@),
            insns_upto(lv, i as int) == Ok::<Seq<BpfInsn>, Seq<char>>(insns@),
        decreases ls@.len() - i,
    {
        assert(lv[i as int] == ls@[i as int]@);
        match insn_of_exec(ls[i].as_slice()) {
            None => {},
            Some(Ok(insn)) => {
                insns.push(insn);
            },
            Some(Err(e)) => {
                proof { lemma_insns_stop(lv, i + 1, lv.len() as int); }
                return Err(e);
            },
        }
        i = i + 1;
    }
    if insns.len() == 0 {
        return Err(Error::Capture(crate::text::owned("tcpdump produced no BPF instructions")));
    }
    Ok(insns)
}

} // verus!
