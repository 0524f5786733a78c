//! Firewall match expressions: the text of a firewall rule's match
//! (`ip saddr 10.0.1.0/24 tcp dport 22`, `ct state established,related`)
//! read into the matches it adds to the rule.
//!
//! Whether a CIDR's address part is an IPv4 address, and how it prints, is
//! read from an [`AddrFacts`] table that the caller fills by parsing the
//! addresses.
use vstd::prelude::*;
use crate::capture::{comma_fields, comma_fields_exec};
use crate::container::{IntError, int_error_text, is_digit, digit_value};
use crate::error::Error;
use crate::map::StrMap;
use crate::routes::AddrFacts;
use crate::types::{FirewallConfig, FirewallRule, NatAction, NatConfig, NatRule};
use crate::text::{
    is_ws, exec_is_ws, trim, trim_chars, to_chars, str_eq, push_str, push_dec, dec, string_from_chars, find_char,
    take_chars, skip_chars, before_first, after_first, lemma_first_pos,
};
use crate::vrf::{ip_fact, ip_fact_of, parse_u8_spec, parse_u8};

verus! {

/// Connection-tracking states a rule matches.
#[derive(Debug, Clone, Copy, PartialEq, Eq, Structural)]
pub struct CtStates {
    pub established: bool,
    pub related: bool,
    pub new: bool,
    pub invalid: bool,
}

/// One match a firewall expression adds to a rule.
#[derive(Debug, Clone)]
pub enum RuleMatch {
    /// IPv4 source in `addr/prefix` (the address as it prints).
    Saddr4 { addr: String, prefix: u8 },
    /// IPv4 destination in `addr/prefix`.
    Daddr4 { addr: String, prefix: u8 },
    TcpDport(u16),
    TcpSport(u16),
    UdpDport(u16),
    UdpSport(u16),
    IcmpType(u8),
    Icmpv6Type(u8),
    Mark(u32),
    CtState(CtStates),
}

pub enum RuleMatchView {
    Saddr4 { addr: Seq<char>, prefix: u8 },
    Daddr4 { addr: Seq<char>, prefix: u8 },
    TcpDport(u16),
    TcpSport(u16),
    UdpDport(u16),
    UdpSport(u16),
    IcmpType(u8),
    Icmpv6Type(u8),
    Mark(u32),
    CtState(CtStates),
}

impl View for RuleMatch {
    type V = RuleMatchView;

    open spec fn view(&self) -> RuleMatchView {
        match self {
            RuleMatch::Saddr4 { addr, prefix } => RuleMatchView::Saddr4 { addr: addr@, prefix: *prefix },
            RuleMatch::Daddr4 { addr, prefix } => RuleMatchView::Daddr4 { addr: addr@, prefix: *prefix },
            RuleMatch::TcpDport(p) => RuleMatchView::TcpDport(*p),
            RuleMatch::TcpSport(p) => RuleMatchView::TcpSport(*p),
            RuleMatch::UdpDport(p) => RuleMatchView::UdpDport(*p),
            RuleMatch::UdpSport(p) => RuleMatchView::UdpSport(*p),
            RuleMatch::IcmpType(t) => RuleMatchView::IcmpType(*t),
            RuleMatch::Icmpv6Type(t) => RuleMatchView::Icmpv6Type(*t),
            RuleMatch::Mark(m) => RuleMatchView::Mark(*m),
            RuleMatch::CtState(c) => RuleMatchView::CtState(*c),
        }
    }
}

/// The views of a list of matches.
pub open spec fn match_views(v: Seq<RuleMatch>) -> Seq<RuleMatchView> {
    v.map_values(|m: RuleMatch| m@)
}

// ─── Words ──────────────────────────────────────────────────────────

/// The whitespace scan of the first `n` characters: the words completed by
/// whitespace, and the word in progress.
pub open spec fn word_scan(s: Seq<char>, n: int) -> (Seq<Seq<char>>, Seq<char>)
    decreases n,
{
    if n <= 0 {
        (Seq::empty(), Seq::empty())
    } else {
        let (ws, cur) = word_scan(s, n - 1);
        if is_ws(s[n - 1]) {
            if cur.len() > 0 { (ws.push(cur), Seq::empty()) } else { (ws, Seq::empty()) }
        } else {
            (ws, cur.push(s[n - 1]))
        }
    }
}

/// The words of `s`, as `str::split_whitespace` gives them.
pub open spec fn words(s: Seq<char>) -> Seq<Seq<char>> {
    let (ws, cur) = word_scan(s, s.len() as int);
    if cur.len() > 0 { ws.push(cur) } else { ws }
}

fn words_exec(s: &[char]) -> (r: Vec<String>)
    ensures
        r@.map_values(|w: String| w@) == words(s@),
{
    let mut out: Vec<String> = Vec::new();
    let mut cur: Vec<char> = Vec::new();
    let mut i: usize = 0;
    while i < s.len()
        invariant
            i <= s@.len(),
            (out@.map_values(|w: String| w@), cur@) == word_scan(s@, i as int),
        decreases s@.len() - i,
    {
        if exec_is_ws(s[i]) {
            if cur.len() > 0 {
                let ghost prev = out@;
                let w = string_from_chars(cur.as_slice());
                out.push(w);
                assert(out@.map_values(|w: String| w@) =~= prev.map_values(|w: String| w@).push(cur@));
            }
            cur = Vec::new();
            assert(cur@ =~= Seq::<char>::empty());
        } else {
            cur.push(s[i]);
        }
        i = i + 1;
    }
    if cur.len() > 0 {
        let ghost prev = out@;
        let w = string_from_chars(cur.as_slice());
        out.push(w);
        assert(out@.map_values(|w: String| w@) =~= prev.map_values(|w: String| w@).push(cur@));
    }
    out
}

// ─── Bounded integers ───────────────────────────────────────────────

/// Left-to-right reading of the digits `ds[0..n]` as an unsigned integer
/// of at most `max`: the value, or the first error met.
pub open spec fn read_bounded(ds: Seq<char>, n: int, max: int) -> Result<int, IntError>
    decreases n,
{
    if n <= 0 {
        Ok(0)
    } else {
        match read_bounded(ds, n - 1, max) {
            Err(e) => Err(e),
            Ok(v) => if !is_digit(ds[n - 1]) {
                Err(IntError::InvalidDigit)
            } else if v * 10 + digit_value(ds[n - 1]) > max {
                Err(IntError::PosOverflow)
            } else {
                Ok(v * 10 + digit_value(ds[n - 1]))
            },
        }
    }
}

/// Unsigned parsing with std's rules for a type whose largest value is
/// `max`: an optional `+`, then at least one digit.
pub open spec fn parse_bounded(s: Seq<char>, max: int) -> Result<int, IntError> {
    if s.len() == 0 {
        Err(IntError::Empty)
    } else if s[0] == '+' {
        if s.len() == 1 {
            Err(IntError::InvalidDigit)
        } else {
            read_bounded(s.skip(1), s.len() - 1, max)
        }
    } else {
        read_bounded(s, s.len() as int, max)
    }
}

proof fn lemma_bounded_stops(ds: Seq<char>, n: int, max: int)
    requires
        0 < n <= ds.len(),
        read_bounded(ds, n, max) is Err,
    ensures
        read_bounded(ds, ds.len() as int, max) == read_bounded(ds, n, max),
    decreases ds.len() - n,
{
    if n < ds.len() {
        lemma_bounded_stops(ds, n + 1, max);
    }
}

fn read_bounded_exec(ds: &[char], max: u32) -> (r: Result<u32, IntError>)
    ensures
        match read_bounded(ds@, ds@.len() as int, max as int) {
            Ok(v) => r matches Ok(x) && x == v,
            Err(e) => r == Err::<u32, IntError>(e),
        },
{
    let mut v: u64 = 0;
    let mut i: usize = 0;
    while i < ds.len()
        invariant
            i <= ds@.len(),
            v <= max,
            read_bounded(ds@, i as int, max as int) == Ok::<int, IntError>(v as int),
        decreases ds@.len() - i,
    {
        let c = ds[i];
        if !('0' <= c && c <= '9') {
            proof { lemma_bounded_stops(ds@, i as int + 1, max as int); }
            return Err(IntError::InvalidDigit);
        }
        let d = ((c as u32) - ('0' as u32)) as u64;
        if v * 10 + d > max as u64 {
            proof { lemma_bounded_stops(ds@, i as int + 1, max as int); }
            return Err(IntError::PosOverflow);
        }
        v = v * 10 + d;
        i = i + 1;
    }
    Ok(v as u32)
}

/// Unsigned parsing up to `max` (see [`parse_bounded`]).
fn parse_bounded_exec(s: &[char], max: u32) -> (r: Result<u32, IntError>)
    ensures
        match parse_bounded(s@, max as int) {
            Ok(v) => r matches Ok(x) && x == v,
            Err(e) => r == Err::<u32, IntError>(e),
        },
{
    if s.len() == 0 {
        Err(IntError::Empty)
    } else if s[0] == '+' {
        if s.len() == 1 {
            Err(IntError::InvalidDigit)
        } else {
            let rest = skip_chars(s, 1);
            read_bounded_exec(rest.as_slice(), max)
        }
    } else {
        read_bounded_exec(s, max)
    }
}

// ─── Pieces of an expression ────────────────────────────────────────

/// The IPv4 `addr/prefix` of a CIDR (the address as it prints), or the
/// message of the topology error that rejects it.
pub open spec fn v4_cidr(s: Seq<char>, facts: StrMap<AddrFacts>) -> Result<(Seq<char>, u8), Seq<char>> {
    if !s.contains('/') {
        Err("missing '/' in CIDR notation: "@ + s)
    } else {
        match ip_fact(facts, before_first(s, '/')) {
            Some((false, shown)) => match parse_u8_spec(after_first(s, '/')) {
                Err(e) => Err("invalid integer: "@ + int_error_text(e)),
                Ok(p) => if p > 32 {
                    Err("prefix length "@ + dec(p as nat) + " exceeds 32"@)
                } else {
                    Ok((shown, p as u8))
                },
            },
            _ => Err("invalid IP address: invalid IPv4 address syntax"@),
        }
    }
}

/// The states named in a comma-separated list; unknown names add nothing.
pub open spec fn ct_add(c: CtStates, name: Seq<char>) -> CtStates {
    if name == "established"@ {
        CtStates { established: true, ..c }
    } else if name == "related"@ {
        CtStates { related: true, ..c }
    } else if name == "new"@ {
        CtStates { new: true, ..c }
    } else if name == "invalid"@ {
        CtStates { invalid: true, ..c }
    } else {
        c
    }
}

pub open spec fn ct_fold(parts: Seq<Seq<char>>, n: int) -> CtStates
    decreases n,
{
    if n <= 0 {
        CtStates { established: false, related: false, new: false, invalid: false }
    } else {
        ct_add(ct_fold(parts, n - 1), trim(parts[n - 1]))
    }
}

/// The states of a `ct state` list such as `established,related`.
pub open spec fn ct_states_of(s: Seq<char>) -> CtStates {
    let p = comma_fields(s);
    ct_fold(p, p.len() as int)
}

/// A parsed port number as the port type.
pub open spec fn port_of(v: int) -> u16 {
    v as u16
}

/// A parsed type number as a byte.
pub open spec fn byte_of(v: int) -> u8 {
    v as u8
}

/// A parsed mark as a 32-bit word.
pub open spec fn word_of(v: int) -> u32 {
    v as u32
}

/// The message for a token no match starts with.
pub open spec fn unsupported(tok: Seq<char>, expr: Seq<char>) -> Seq<char> {
    "unsupported firewall match token '"@ + tok + "' in expression: '"@ + expr
        + "'. Supported: 'ip saddr/daddr CIDR', 'ct state ...', 'tcp dport/sport N', 'udp dport/sport N', 'icmp type N', 'icmpv6 type N', 'mark N'"@
}

/// `m` before the matches of the rest, or the rest's error.
pub open spec fn prepend(m: RuleMatchView, rest: Result<Seq<RuleMatchView>, Seq<char>>) -> Result<Seq<RuleMatchView>, Seq<char>> {
    match rest {
        Err(e) => Err(e),
        Ok(r) => Ok(seq![m] + r),
    }
}

/// The matches of the tokens from position `i` on, or the message of the
/// first error.
pub open spec fn matches_from(toks: Seq<Seq<char>>, i: int, expr: Seq<char>, facts: StrMap<AddrFacts>)
    -> Result<Seq<RuleMatchView>, Seq<char>>
    decreases toks.len() - i,
{
    if i < 0 || i >= toks.len() {
        Ok(Seq::empty())
    } else {
        let t = toks[i];
        let has1 = i + 1 < toks.len();
        let has2 = i + 2 < toks.len();
        if t == "ip"@ && has2 && (toks[i + 1] == "saddr"@ || toks[i + 1] == "daddr"@) {
            match v4_cidr(toks[i + 2], facts) {
                Err(e) => Err("invalid IPv4 CIDR '"@ + toks[i + 2] + "' in firewall rule: invalid topology: "@ + e),
                Ok((a, p)) => prepend(
                    if toks[i + 1] == "saddr"@ { RuleMatchView::Saddr4 { addr: a, prefix: p } }
                    else { RuleMatchView::Daddr4 { addr: a, prefix: p } },
                    matches_from(toks, i + 3, expr, facts)),
            }
        } else if t == "ip6"@ && has2 && (toks[i + 1] == "saddr"@ || toks[i + 1] == "daddr"@) {
            Err("IPv6 saddr/daddr matching is not yet supported in firewall rules: '"@ + expr + "'"@)
        } else if (t == "tcp"@ || t == "udp"@) && has2 && (toks[i + 1] == "dport"@ || toks[i + 1] == "sport"@) {
            match parse_bounded(toks[i + 2], 65535) {
                Err(_) => Err("invalid port '"@ + toks[i + 2] + "' in firewall rule"@),
                Ok(p) => prepend(
                    if t == "tcp"@ {
                        if toks[i + 1] == "dport"@ { RuleMatchView::TcpDport(port_of(p)) } else { RuleMatchView::TcpSport(port_of(p)) }
                    } else {
                        if toks[i + 1] == "dport"@ { RuleMatchView::UdpDport(port_of(p)) } else { RuleMatchView::UdpSport(port_of(p)) }
                    },
                    matches_from(toks, i + 3, expr, facts)),
            }
        } else if t == "icmp"@ && has2 && toks[i + 1] == "type"@ {
            match parse_bounded(toks[i + 2], 255) {
                Err(_) => Err("invalid ICMP type '"@ + toks[i + 2] + "' in firewall rule"@),
                Ok(v) => prepend(RuleMatchView::IcmpType(byte_of(v)), matches_from(toks, i + 3, expr, facts)),
            }
        } else if t == "icmpv6"@ && has2 && toks[i + 1] == "type"@ {
            match parse_bounded(toks[i + 2], 255) {
                Err(_) => Err("invalid ICMPv6 type '"@ + toks[i + 2] + "' in firewall rule"@),
                Ok(v) => prepend(RuleMatchView::Icmpv6Type(byte_of(v)), matches_from(toks, i + 3, expr, facts)),
            }
        } else if t == "mark"@ && has1 {
            match parse_bounded(toks[i + 1], 4294967295) {
                Err(_) => Err("invalid mark '"@ + toks[i + 1] + "' in firewall rule"@),
                Ok(v) => prepend(RuleMatchView::Mark(word_of(v)), matches_from(toks, i + 2, expr, facts)),
            }
        } else if t == "ct"@ && has2 && toks[i + 1] == "state"@ {
            prepend(RuleMatchView::CtState(ct_states_of(toks[i + 2])), matches_from(toks, i + 3, expr, facts))
        } else {
            Err(unsupported(t, expr))
        }
    }
}

/// The matches of a whole expression (see [`matches_from`]).
pub open spec fn expr_matches(expr: Seq<char>, facts: StrMap<AddrFacts>) -> Result<Seq<RuleMatchView>, Seq<char>> {
    let e = trim(expr);
    matches_from(words(e), 0, e, facts)
}


// ─── Reading an expression ──────────────────────────────────────────

/// The result of the matches after `a`: `a` followed by them, or the error.
pub open spec fn after(a: Seq<RuleMatchView>, r: Result<Seq<RuleMatchView>, Seq<char>>) -> Result<Seq<RuleMatchView>, Seq<char>> {
    match r {
        Err(e) => Err(e),
        Ok(x) => Ok(a + x),
    }
}

fn to_port(v: u32) -> (r: u16)
    requires
        v <= 65535,
    ensures
        r == port_of(v as int),
{
    v as u16
}

fn to_byte(v: u32) -> (r: u8)
    requires
        v <= 255,
    ensures
        r == byte_of(v as int),
{
    v as u8
}

fn to_word(v: u32) -> (r: u32)
    ensures
        r == word_of(v as int),
{
    v
}

/// The match for a message type of ICMP (`six`: ICMPv6).
fn type_match(v: u8, six: bool) -> (r: RuleMatch)
    ensures
        r@ == (if six { RuleMatchView::Icmpv6Type(v) } else { RuleMatchView::IcmpType(v) }),
{
    if six { RuleMatch::Icmpv6Type(v) } else { RuleMatch::IcmpType(v) }
}

/// The states of a `ct state` list (see [`ct_states_of`]).
fn ct_states_exec(s: &str) -> (r: CtStates)
    ensures
        r == ct_states_of(s@),
{
    let cs = to_chars(s);
    let parts = comma_fields_exec(cs.as_slice());
    let ghost pv = parts@.map_values(|f: Vec<char>| f@);
    let mut c = CtStates { established: false, related: false, new: false, invalid: false };
    let mut i: usize = 0;
    while i < parts.len()
        invariant
            i <= parts@.len(),
            pv == parts@.map_values(|f: Vec<char>| f@),
            pv == comma_fields(s@),
            c == ct_fold(pv, i as int),
        decreases parts@.len() - i,
    {
        let name = string_from_chars(trim_chars(parts[i].as_slice()).as_slice());
        assert(name@ == trim(pv[i as int]));
        if str_eq(name.as_str(), "established") {
            c = CtStates { established: true, ..c };
        } else if str_eq(name.as_str(), "related") {
            c = CtStates { related: true, ..c };
        } else if str_eq(name.as_str(), "new") {
            c = CtStates { new: true, ..c };
        } else if str_eq(name.as_str(), "invalid") {
            c = CtStates { invalid: true, ..c };
        }
        i = i + 1;
    }
    c
}

/// The IPv4 `addr/prefix` of a CIDR (see [`v4_cidr`]); a text that is no
/// IPv4 CIDR gives a topology error.
pub fn parse_v4_cidr(s: &str, facts: &StrMap<AddrFacts>) -> (r: Result<(String, u8), Error>)
    requires
        facts.wf(),
    ensures
        match v4_cidr(s@, *facts) {
            Ok((a, p)) => r matches Ok((x, q)) && x@ == a && q == p,
            Err(m) => r matches Err(Error::InvalidTopology(t)) && t@ == m,
        },
{
    let cs = to_chars(s);
    let slash = match find_char(cs.as_slice(), '/') {
        Some(k) => k,
        None => {
            let mut m = String::new();
            push_str(&mut m, "missing '/' in CIDR notation: ");
            push_str(&mut m, s);
            return Err(Error::InvalidTopology(m));
        },
    };
    proof { lemma_first_pos(cs@, '/'); }
    assert(slash < cs.len());
    let addr = string_from_chars(take_chars(cs.as_slice(), slash).as_slice());
    let pfx = skip_chars(cs.as_slice(), slash + 1);
    let shown = match ip_fact_of(facts, addr.as_str()) {
        Some((false, t)) => t,
        _ => return Err(Error::InvalidTopology(crate::text::owned("invalid IP address: invalid IPv4 address syntax"))),
    };
    match parse_u8(pfx.as_slice()) {
        Err(e) => {
            let mut m = String::new();
            push_str(&mut m, "invalid integer: ");
            push_str(&mut m, match e {
                IntError::Empty => "cannot parse integer from empty string",
                IntError::InvalidDigit => "invalid digit found in string",
                IntError::PosOverflow => "number too large to fit in target type",
            });
            Err(Error::InvalidTopology(m))
        },
        Ok(p) => {
            if p > 32 {
                let mut m = String::new();
                push_str(&mut m, "prefix length ");
                push_dec(&mut m, p as u64);
                push_str(&mut m, " exceeds 32");
                Err(Error::InvalidTopology(m))
            } else {
                Ok((shown, p))
            }
        },
    }
}

/// `head` then `tok` then `tail`, as a deploy error.
fn deploy_error(head: &str, tok: &str, tail: &str) -> (e: Error)
    ensures
        e matches Error::DeployFailed(m) && m@ == head@ + tok@ + tail@,
{
    let mut m = String::new();
    push_str(&mut m, head);
    push_str(&mut m, tok);
    push_str(&mut m, tail);
    Error::DeployFailed(m)
}

proof fn lemma_after_prepend(a: Seq<RuleMatchView>, m: RuleMatchView, r: Result<Seq<RuleMatchView>, Seq<char>>)
    ensures
        after(a, prepend(m, r)) == after(a.push(m), r),
{
    match r {
        Ok(x) => {
            assert(a + (seq![m] + x) =~= a.push(m) + x);
        },
        Err(_) => {},
    }
}

/// Adds the matches of the firewall expression `expr` to those of `rule`
/// (see [`expr_matches`]); an expression that does not read gives a
/// deploy error naming what is wrong.
pub fn apply_match_expr(rule: Vec<RuleMatch>, expr: &str, facts: &StrMap<AddrFacts>) -> (r: Result<Vec<RuleMatch>, Error>)
    requires
        facts.wf(),
    ensures
        match after(match_views(rule@), expr_matches(expr@, *facts)) {
            Ok(ms) => r matches Ok(v) && match_views(v@) == ms,
            Err(m) => r matches Err(Error::DeployFailed(t)) && t@ == m,
        },
{
    let ec = trim_chars(to_chars(expr).as_slice());
    let e = string_from_chars(ec.as_slice());
    let toks = words_exec(ec.as_slice());
    let ghost tv = toks@.map_values(|w: String| w@);
    let mut out = rule;
    let mut i: usize = 0;
    while i < toks.len()
        invariant
            facts.wf(),
            i <= toks@.len(),
            tv == toks@.map_values(|w: String| w@),
            tv == words(e@),
            e@ == trim(expr@),
            after(match_views(rule@), expr_matches(expr@, *facts))
                == after(match_views(out@), matches_from(tv, i as int, e@, *facts)),
        decreases toks@.len() - i,
    {
        let ghost before = match_views(out@);
        let t = toks[i].as_str();
        let has1 = i + 1 < toks.len();
        let has2 = has1 && i + 2 < toks.len();
        let second = if has1 { toks[i + 1].as_str() } else { "" };
        let third = if has2 { toks[i + 2].as_str() } else { "" };
        proof {
            assert(t@ == tv[i as int]);
            if has1 { assert(second@ == tv[i + 1]); }
            if has2 { assert(third@ == tv[i + 2]); }
        }
        let ghost here = matches_from(tv, i as int, e@, *facts);
        let step: Result<(RuleMatch, usize), Error> =
            if str_eq(t, "ip") && has2 && (str_eq(second, "saddr") || str_eq(second, "daddr")) {
                match parse_v4_cidr(third, facts) {
                    Err(why) => {
                        let mut m = String::new();
                        push_str(&mut m, "invalid IPv4 CIDR '");
                        push_str(&mut m, third);
                        push_str(&mut m, "' in firewall rule: invalid topology: ");
                        let inner = match why {
                            Error::InvalidTopology(t) => t,
                            _ => String::new(),
                        };
                        push_str(&mut m, inner.as_str());
                        assert(here == Err::<Seq<RuleMatchView>, Seq<char>>(m@));
                        Err(Error::DeployFailed(m))
                    },
                    Ok((a, p)) => {
                        if str_eq(second, "saddr") {
                            Ok((RuleMatch::Saddr4 { addr: a, prefix: p }, 3))
                        } else {
                            Ok((RuleMatch::Daddr4 { addr: a, prefix: p }, 3))
                        }
                    },
                }
            } else if str_eq(t, "ip6") && has2 && (str_eq(second, "saddr") || str_eq(second, "daddr")) {
                let err = deploy_error("IPv6 saddr/daddr matching is not yet supported in firewall rules: '", e.as_str(), "'");
                assert(here == Err::<Seq<RuleMatchView>, Seq<char>>(err->DeployFailed_0@));
                Err(err)
            } else if (str_eq(t, "tcp") || str_eq(t, "udp")) && has2
                && (str_eq(second, "dport") || str_eq(second, "sport")) {
                match parse_bounded_exec(to_chars(third).as_slice(), 65535) {
                    Err(_) => {
                        let err = deploy_error("invalid port '", third, "' in firewall rule");
                        assert(here == Err::<Seq<RuleMatchView>, Seq<char>>(err->DeployFailed_0@));
                        Err(err)
                    },
                    Ok(v) => {
                        let p = to_port(v);
                        let m = if str_eq(t, "tcp") {
                            if str_eq(second, "dport") { RuleMatch::TcpDport(p) } else { RuleMatch::TcpSport(p) }
                        } else {
                            if str_eq(second, "dport") { RuleMatch::UdpDport(p) } else { RuleMatch::UdpSport(p) }
                        };
                        Ok((m, 3))
                    },
                }
            } else if (str_eq(t, "icmp") || str_eq(t, "icmpv6")) && has2 && str_eq(second, "type") {
                let six = !str_eq(t, "icmp");
                match parse_bounded_exec(to_chars(third).as_slice(), 255) {
                    Err(_) => {
                        let err = if six {
                            deploy_error("invalid ICMPv6 type '", third, "' in firewall rule")
                        } else {
                            deploy_error("invalid ICMP type '", third, "' in firewall rule")
                        };
                        assert(here == Err::<Seq<RuleMatchView>, Seq<char>>(err->DeployFailed_0@));
                        Err(err)
                    },
                    Ok(v) => Ok((type_match(to_byte(v), six), 3)),
                }
            } else if str_eq(t, "mark") && has1 {
                match parse_bounded_exec(to_chars(second).as_slice(), 4294967295) {
                    Err(_) => {
                        let err = deploy_error("invalid mark '", second, "' in firewall rule");
                        assert(here == Err::<Seq<RuleMatchView>, Seq<char>>(err->DeployFailed_0@));
                        Err(err)
                    },
                    Ok(v) => Ok((RuleMatch::Mark(to_word(v)), 2)),
                }
            } else if str_eq(t, "ct") && has2 && str_eq(second, "state") {
                Ok((RuleMatch::CtState(ct_states_exec(third)), 3))
            } else {
                let mut m = String::new();
                push_str(&mut m, "unsupported firewall match token '");
                push_str(&mut m, t);
                push_str(&mut m, "' in expression: '");
                push_str(&mut m, e.as_str());
                push_str(&mut m,
                    "'. Supported: 'ip saddr/daddr CIDR', 'ct state ...', 'tcp dport/sport N', 'udp dport/sport N', 'icmp type N', 'icmpv6 type N', 'mark N'");
                assert(here == Err::<Seq<RuleMatchView>, Seq<char>>(m@));
                Err(Error::DeployFailed(m))
            };
        match step {
            Err(err) => {
                return Err(err);
            },
            Ok((m, k)) => {
                proof { lemma_after_prepend(before, m@, matches_from(tv, i + k, e@, *facts)); }
                out.push(m);
                assert(match_views(out@) =~= before.push(m@));
                i = i + k;
            },
        }
    }
    assert(match_views(out@) + Seq::<RuleMatchView>::empty() =~= match_views(out@));
    Ok(out)
}


// ─── nftables configuration of a node ───────────────────────────────

/// The hook a base chain attaches to.
#[derive(Debug, Clone, Copy, PartialEq, Eq, Structural)]
pub enum Hook {
    Input,
    Forward,
    Prerouting,
    Postrouting,
}

/// The priority of a base chain.
#[derive(Debug, Clone, Copy, PartialEq, Eq, Structural)]
pub enum Priority {
    Filter,
    DstNat,
    SrcNat,
}

/// The type of a base chain.
#[derive(Debug, Clone, Copy, PartialEq, Eq, Structural)]
pub enum ChainType {
    Filter,
    Nat,
}

/// The default verdict of a filter chain.
#[derive(Debug, Clone, Copy, PartialEq, Eq, Structural)]
pub enum Policy {
    Accept,
    Drop,
}

/// A base chain of the lab's table.
#[derive(Debug, Clone)]
pub struct ChainSpec {
    pub name: String,
    pub hook: Hook,
    pub priority: Priority,
    pub chain_type: ChainType,
    pub policy: Option<Policy>,
}

pub struct ChainSpecView {
    pub name: Seq<char>,
    pub hook: Hook,
    pub priority: Priority,
    pub chain_type: ChainType,
    pub policy: Option<Policy>,
}

impl View for ChainSpec {
    type V = ChainSpecView;

    open spec fn view(&self) -> ChainSpecView {
        ChainSpecView { name: self.name@, hook: self.hook, priority: self.priority, chain_type: self.chain_type, policy: self.policy }
    }
}

/// The statement that ends a rule.
#[derive(Debug, Clone)]
pub enum Verdict {
    Accept,
    Drop,
    Masquerade,
    /// Source NAT to an IPv4 address (as it prints).
    Snat { addr: String },
    /// Destination NAT to an IPv4 address (as it prints) and maybe a port.
    Dnat { addr: String, port: Option<u16> },
}

pub enum VerdictView {
    Accept,
    Drop,
    Masquerade,
    Snat { addr: Seq<char> },
    Dnat { addr: Seq<char>, port: Option<u16> },
}

impl View for Verdict {
    type V = VerdictView;

    open spec fn view(&self) -> VerdictView {
        match self {
            Verdict::Accept => VerdictView::Accept,
            Verdict::Drop => VerdictView::Drop,
            Verdict::Masquerade => VerdictView::Masquerade,
            Verdict::Snat { addr } => VerdictView::Snat { addr: addr@ },
            Verdict::Dnat { addr, port } => VerdictView::Dnat { addr: addr@, port: *port },
        }
    }
}

/// A rule of a chain, under a stable key so a re-apply finds it again.
#[derive(Debug, Clone)]
pub struct KeyedRule {
    pub chain: String,
    pub key: String,
    pub matches: Vec<RuleMatch>,
    pub verdict: Option<Verdict>,
}

pub struct KeyedRuleView {
    pub chain: Seq<char>,
    pub key: Seq<char>,
    pub matches: Seq<RuleMatchView>,
    pub verdict: Option<VerdictView>,
}

impl View for KeyedRule {
    type V = KeyedRuleView;

    open spec fn view(&self) -> KeyedRuleView {
        KeyedRuleView {
            chain: self.chain@,
            key: self.key@,
            matches: match_views(self.matches@),
            verdict: match self.verdict { Some(v) => Some(v@), None => None },
        }
    }
}

/// A table: its chains and its rules, each in declaration order.
#[derive(Debug, Clone)]
pub struct NftTable {
    pub name: String,
    pub chains: Vec<ChainSpec>,
    pub rules: Vec<KeyedRule>,
}

pub struct NftTableView {
    pub name: Seq<char>,
    pub chains: Seq<ChainSpecView>,
    pub rules: Seq<KeyedRuleView>,
}

impl View for NftTable {
    type V = NftTableView;

    open spec fn view(&self) -> NftTableView {
        NftTableView {
            name: self.name@,
            chains: self.chains@.map_values(|c: ChainSpec| c@),
            rules: self.rules@.map_values(|r: KeyedRule| r@),
        }
    }
}

/// The text of an optional string (empty when absent).
pub open spec fn text_or_empty(o: Option<String>) -> Seq<char> {
    match o {
        Some(s) => s@,
        None => Seq::empty(),
    }
}

/// The first firewall rule among the first `n` whose match expression does
/// not read gives the error.
pub open spec fn fw_check(rules: Seq<FirewallRule>, n: int, facts: StrMap<AddrFacts>) -> Result<(), Seq<char>>
    decreases n,
{
    if n <= 0 {
        Ok(())
    } else {
        match fw_check(rules, n - 1, facts) {
            Err(e) => Err(e),
            Ok(_) => {
                let expr = text_or_empty(rules[n - 1].match_expr);
                if expr.len() > 0 {
                    match expr_matches(expr, facts) {
                        Err(m) => Err(m),
                        Ok(_) => Ok(()),
                    }
                } else {
                    Ok(())
                }
            },
        }
    }
}

/// Firewall rule `idx` as a rule of the input chain.
pub open spec fn fw_rule_view(r: FirewallRule, idx: int, facts: StrMap<AddrFacts>) -> KeyedRuleView {
    let expr = text_or_empty(r.match_expr);
    KeyedRuleView {
        chain: "input"@,
        key: "nlink-lab/fw/input/"@ + dec(idx as nat),
        matches: if expr.len() > 0 {
            match expr_matches(expr, facts) { Ok(ms) => ms, Err(_) => Seq::empty() }
        } else {
            Seq::empty()
        },
        verdict: Some(if r.action matches Some(a) && a@ == "drop"@ { VerdictView::Drop } else { VerdictView::Accept }),
    }
}

/// The address match a NAT rule's CIDR adds (`src`: on the source).
pub open spec fn cidr_matches(c: Option<String>, facts: StrMap<AddrFacts>, src: bool) -> Seq<RuleMatchView> {
    match c {
        Some(s) => match v4_cidr(s@, facts) {
            Ok((a, p)) => seq![if src { RuleMatchView::Saddr4 { addr: a, prefix: p } } else { RuleMatchView::Daddr4 { addr: a, prefix: p } }],
            Err(_) => Seq::empty(),
        },
        None => Seq::empty(),
    }
}

/// How an IPv4 address text prints once parsed.
pub open spec fn v4_shown(t: Seq<char>, facts: StrMap<AddrFacts>) -> Seq<char> {
    match ip_fact(facts, t) {
        Some((false, s)) => s,
        _ => t,
    }
}

/// NAT rule `idx` as a rule of its chain.
pub open spec fn nat_rule_view(r: NatRule, idx: int, facts: StrMap<AddrFacts>) -> KeyedRuleView {
    match r.action {
        NatAction::Masquerade => KeyedRuleView {
            chain: "postrouting"@,
            key: "nlink-lab/nat/postrouting/"@ + dec(idx as nat) + "/masq"@,
            matches: cidr_matches(r.src, facts, true),
            verdict: Some(VerdictView::Masquerade),
        },
        NatAction::Snat => KeyedRuleView {
            chain: "postrouting"@,
            key: "nlink-lab/nat/postrouting/"@ + dec(idx as nat) + "/snat"@,
            matches: cidr_matches(r.src, facts, true),
            verdict: match r.target { Some(t) => Some(VerdictView::Snat { addr: v4_shown(t@, facts) }), None => None },
        },
        _ => KeyedRuleView {
            chain: "prerouting"@,
            key: "nlink-lab/nat/prerouting/"@ + dec(idx as nat) + "/dnat"@,
            matches: cidr_matches(r.dst, facts, false),
            verdict: match r.target {
                Some(t) => Some(VerdictView::Dnat { addr: v4_shown(t@, facts), port: r.target_port }),
                None => None,
            },
        },
    }
}

/// What rejects NAT rule `r`: its source CIDR, its destination CIDR, or its
/// target address, in that order.
pub open spec fn nat_rule_error(r: NatRule, facts: StrMap<AddrFacts>) -> Option<Seq<char>> {
    let src_err = match r.src {
        Some(s) => match v4_cidr(s@, facts) {
            Err(e) => Some("invalid src CIDR '"@ + s@ + "' in NAT rule: invalid topology: "@ + e),
            Ok(_) => None,
        },
        None => None,
    };
    let dst_err = match r.dst {
        Some(s) => match v4_cidr(s@, facts) {
            Err(e) => Some("invalid dst CIDR '"@ + s@ + "' in NAT rule: invalid topology: "@ + e),
            Ok(_) => None,
        },
        None => None,
    };
    let target_err = match r.target {
        Some(t) => if ip_fact(facts, t@) matches Some((false, _)) {
            None
        } else {
            Some("invalid NAT target '"@ + t@ + "': invalid IPv4 address syntax"@)
        },
        None => None,
    };
    if src_err is Some { src_err } else if dst_err is Some { dst_err } else { target_err }
}

/// The first of the first `n` NAT rules that is rejected gives the error.
pub open spec fn nat_check(rules: Seq<NatRule>, n: int, facts: StrMap<AddrFacts>) -> Result<(), Seq<char>>
    decreases n,
{
    if n <= 0 {
        Ok(())
    } else {
        match nat_check(rules, n - 1, facts) {
            Err(e) => Err(e),
            Ok(_) => match nat_rule_error(rules[n - 1], facts) {
                Some(m) => Err(m),
                None => Ok(()),
            },
        }
    }
}

/// NAT rules that planning takes: literals that read, and no translation
/// left unexpanded.
pub open spec fn nat_plannable(nat_cfg: NatConfig, facts: StrMap<AddrFacts>) -> bool {
    &&& nat_check(nat_cfg.rules@, nat_cfg.rules@.len() as int, facts) is Ok
    &&& forall|i: int| 0 <= i < nat_cfg.rules@.len() ==> !(#[trigger] nat_cfg.rules@[i].action is Translate)
}

/// A filter base chain with the given policy.
pub open spec fn filter_chain(name: Seq<char>, hook: Hook, policy: Policy) -> ChainSpecView {
    ChainSpecView { name, hook, priority: Priority::Filter, chain_type: ChainType::Filter, policy: Some(policy) }
}

/// A NAT base chain.
pub open spec fn nat_chain(name: Seq<char>, hook: Hook, priority: Priority) -> ChainSpecView {
    ChainSpecView { name, hook, priority, chain_type: ChainType::Nat, policy: None }
}

/// The nftables tables of a node's firewall and NAT rules: none without
/// either; else the lab's one table, with the input and forward filter
/// chains and the firewall rules (in the input chain) when there is a
/// firewall, and the prerouting and postrouting NAT chains and the NAT
/// rules when there are NAT rules. A firewall rule whose match does not
/// read gives the error.
pub open spec fn nft_tables(fw: Option<FirewallConfig>, nat_cfg: Option<NatConfig>, facts: StrMap<AddrFacts>)
    -> Result<Seq<NftTableView>, Seq<char>>
{
    let fw_rules = match fw { Some(f) => f.rules@, None => Seq::empty() };
    let nat_rules = match nat_cfg { Some(n) => n.rules@, None => Seq::empty() };
    match fw_check(fw_rules, fw_rules.len() as int, facts) {
        Err(m) => Err(m),
        Ok(_) => {
            let want_fw = fw is Some;
            let want_nat = nat_rules.len() > 0;
            if !want_fw && !want_nat {
                Ok(Seq::empty())
            } else {
                let policy = if fw matches Some(f) && f.policy matches Some(p) && p@ == "drop"@ { Policy::Drop } else { Policy::Accept };
                let fw_chains = if want_fw {
                    seq![filter_chain("input"@, Hook::Input, policy), filter_chain("forward"@, Hook::Forward, policy)]
                } else {
                    Seq::empty()
                };
                let nat_chains = if want_nat {
                    seq![nat_chain("prerouting"@, Hook::Prerouting, Priority::DstNat),
                        nat_chain("postrouting"@, Hook::Postrouting, Priority::SrcNat)]
                } else {
                    Seq::empty()
                };
                let fw_rs = Seq::new(fw_rules.len(), |i: int| fw_rule_view(fw_rules[i], i, facts));
                let nat_rs = Seq::new(nat_rules.len(), |i: int| nat_rule_view(nat_rules[i], i, facts));
                Ok(seq![NftTableView { name: "nlink-lab"@, chains: fw_chains + nat_chains, rules: fw_rs + nat_rs }])
            }
        },
    }
}


proof fn lemma_fw_check_each(rules: Seq<FirewallRule>, n: int, facts: StrMap<AddrFacts>)
    requires
        0 <= n <= rules.len(),
        fw_check(rules, n, facts) is Ok,
    ensures
        forall|i: int| 0 <= i < n && text_or_empty(#[trigger] rules[i].match_expr).len() > 0
            ==> expr_matches(text_or_empty(rules[i].match_expr), facts) is Ok,
    decreases n,
{
    if n > 0 {
        lemma_fw_check_each(rules, n - 1, facts);
    }
}

proof fn lemma_nat_check_each(rules: Seq<NatRule>, n: int, facts: StrMap<AddrFacts>)
    requires
        0 <= n <= rules.len(),
        nat_check(rules, n, facts) is Ok,
    ensures
        forall|i: int| 0 <= i < n ==> nat_rule_error(#[trigger] rules[i], facts) is None,
    decreases n,
{
    if n > 0 {
        lemma_nat_check_each(rules, n - 1, facts);
    }
}

proof fn lemma_fw_check_stop(rules: Seq<FirewallRule>, n: int, m: int, facts: StrMap<AddrFacts>)
    requires
        0 <= n <= m,
        fw_check(rules, n, facts) is Err,
    ensures
        fw_check(rules, m, facts) == fw_check(rules, n, facts),
    decreases m - n,
{
    if n < m {
        lemma_fw_check_stop(rules, n, m - 1, facts);
    }
}

proof fn lemma_nat_check_stop(rules: Seq<NatRule>, n: int, m: int, facts: StrMap<AddrFacts>)
    requires
        0 <= n <= m,
        nat_check(rules, n, facts) is Err,
    ensures
        nat_check(rules, m, facts) == nat_check(rules, n, facts),
    decreases m - n,
{
    if n < m {
        lemma_nat_check_stop(rules, n, m - 1, facts);
    }
}

/// The error of one NAT rule (see [`nat_rule_error`]).
fn nat_rule_error_exec(r: &NatRule, facts: &StrMap<AddrFacts>) -> (e: Option<String>)
    requires
        facts.wf(),
    ensures
        match nat_rule_error(*r, *facts) {
            Some(m) => e matches Some(t) && t@ == m,
            None => e is None,
        },
{
    if let Some(s) = &r.src {
        if let Err(Error::InvalidTopology(why)) = parse_v4_cidr(s.as_str(), facts) {
            let mut m = String::new();
            push_str(&mut m, "invalid src CIDR '");
            push_str(&mut m, s.as_str());
            push_str(&mut m, "' in NAT rule: invalid topology: ");
            push_str(&mut m, why.as_str());
            return Some(m);
        }
    }
    if let Some(s) = &r.dst {
        if let Err(Error::InvalidTopology(why)) = parse_v4_cidr(s.as_str(), facts) {
            let mut m = String::new();
            push_str(&mut m, "invalid dst CIDR '");
            push_str(&mut m, s.as_str());
            push_str(&mut m, "' in NAT rule: invalid topology: ");
            push_str(&mut m, why.as_str());
            return Some(m);
        }
    }
    if let Some(t) = &r.target {
        match ip_fact_of(facts, t.as_str()) {
            Some((false, _)) => {},
            _ => {
                let mut m = String::new();
                push_str(&mut m, "invalid NAT target '");
                push_str(&mut m, t.as_str());
                push_str(&mut m, "': invalid IPv4 address syntax");
                return Some(m);
            },
        }
    }
    None
}

/// Checks every NAT rule's CIDRs and target address (see [`nat_check`]);
/// the first that does not read gives a deploy error naming it.
pub fn validate_nat_rule_literals(nat_cfg: &NatConfig, facts: &StrMap<AddrFacts>) -> (r: Result<(), Error>)
    requires
        facts.wf(),
    ensures
        match nat_check(nat_cfg.rules@, nat_cfg.rules@.len() as int, *facts) {
            Ok(_) => r is Ok,
            Err(m) => r matches Err(Error::DeployFailed(t)) && t@ == m,
        },
{
    let mut i: usize = 0;
    while i < nat_cfg.rules.len()
        invariant
            facts.wf(),
            i <= nat_cfg.rules@.len(),
            nat_check(nat_cfg.rules@, i as int, *facts) == Ok::<(), Seq<char>>(()),
        decreases nat_cfg.rules@.len() - i,
    {
        if let Some(m) = nat_rule_error_exec(&nat_cfg.rules[i], facts) {
            proof { lemma_nat_check_stop(nat_cfg.rules@, i + 1, nat_cfg.rules@.len() as int, *facts); }
            return Err(Error::DeployFailed(m));
        }
        i = i + 1;
    }
    Ok(())
}

/// The address match of a NAT rule's CIDR (see [`cidr_matches`]).
fn cidr_matches_exec(c: &Option<String>, facts: &StrMap<AddrFacts>, src: bool) -> (r: Vec<RuleMatch>)
    requires
        facts.wf(),
    ensures
        match_views(r@) == cidr_matches(*c, *facts, src),
{
    let mut out: Vec<RuleMatch> = Vec::new();
    if let Some(s) = c {
        if let Ok((a, p)) = parse_v4_cidr(s.as_str(), facts) {
            let m = if src { RuleMatch::Saddr4 { addr: a, prefix: p } } else { RuleMatch::Daddr4 { addr: a, prefix: p } };
            out.push(m);
            assert(match_views(out@) =~= seq![m@]);
            return out;
        }
    }
    assert(match_views(out@) =~= Seq::<RuleMatchView>::empty());
    out
}

/// How an IPv4 address text prints (see [`v4_shown`]).
fn v4_shown_exec(t: &str, facts: &StrMap<AddrFacts>) -> (r: String)
    requires
        facts.wf(),
    ensures
        r@ == v4_shown(t@, *facts),
{
    match ip_fact_of(facts, t) {
        Some((false, s)) => s,
        _ => crate::text::owned(t),
    }
}

/// `head` followed by the decimal `n`, then `tail`.
fn keyed(head: &str, n: usize, tail: &str) -> (s: String)
    ensures
        s@ == head@ + dec(n as nat) + tail@,
{
    let mut s = String::new();
    push_str(&mut s, head);
    push_dec(&mut s, n as u64);
    push_str(&mut s, tail);
    s
}

/// The key of firewall rule `idx`.
fn fw_key(idx: usize) -> (s: String)
    ensures
        s@ == "nlink-lab/fw/input/"@ + dec(idx as nat),
{
    let mut s = String::new();
    push_str(&mut s, "nlink-lab/fw/input/");
    push_dec(&mut s, idx as u64);
    s
}

fn chain_of(name: &str, hook: Hook, priority: Priority, chain_type: ChainType, policy: Option<Policy>) -> (c: ChainSpec)
    ensures
        c@ == (ChainSpecView { name: name@, hook, priority, chain_type, policy }),
{
    ChainSpec { name: crate::text::owned(name), hook, priority, chain_type, policy }
}

/// The nftables tables for a node's firewall and NAT rules (see
/// [`nft_tables`]). NAT rules must have been checked (see
/// [`validate_nat_rule_literals`]) and translations expanded.
pub fn topology_to_nftables_config(fw: Option<&FirewallConfig>, nat_cfg: Option<&NatConfig>, facts: &StrMap<AddrFacts>)
    -> (r: Result<Vec<NftTable>, Error>)
    requires
        facts.wf(),
        nat_cfg matches Some(n) ==> nat_plannable(*n, *facts),
    ensures
        match nft_tables(match fw { Some(f) => Some(*f), None => None },
            match nat_cfg { Some(n) => Some(*n), None => None }, *facts) {
            Ok(ts) => r matches Ok(v) && v@.map_values(|t: NftTable| t@) == ts,
            Err(m) => r matches Err(Error::DeployFailed(t)) && t@ == m,
        },
{
    let ghost fw_rules = match fw { Some(f) => f.rules@, None => Seq::<FirewallRule>::empty() };
    let ghost nat_rules = match nat_cfg { Some(n) => n.rules@, None => Seq::<NatRule>::empty() };
    let empty_fw: Vec<FirewallRule> = Vec::new();
    let empty_nat: Vec<NatRule> = Vec::new();
    let no_text = String::new();
    let fw_list: &Vec<FirewallRule> = match fw { Some(f) => &f.rules, None => &empty_fw };
    let nat_list: &Vec<NatRule> = match nat_cfg { Some(n) => &n.rules, None => &empty_nat };
    assert(fw_list@ == fw_rules);
    assert(nat_list@ == nat_rules);

    // Every firewall match is checked before anything is built.
    let mut i: usize = 0;
    while i < fw_list.len()
        invariant
            facts.wf(),
            no_text@ == Seq::<char>::empty(),
            fw_list@ == fw_rules,
            fw_rules == (match fw { Some(f) => f.rules@, None => Seq::<FirewallRule>::empty() }),
            i <= fw_list@.len(),
            fw_check(fw_list@, i as int, *facts) == Ok::<(), Seq<char>>(()),
        decreases fw_list@.len() - i,
    {
        let expr: &str = match &fw_list[i].match_expr { Some(e) => e.as_str(), None => no_text.as_str() };
        assert(expr@ == text_or_empty(fw_list@[i as int].match_expr));
        if to_chars(expr).len() > 0 {
            let start: Vec<RuleMatch> = Vec::new();
            assert(match_views(start@) =~= Seq::<RuleMatchView>::empty());
            if let Err(e) = apply_match_expr(start, expr, facts) {
                proof { lemma_fw_check_stop(fw_list@, i + 1, fw_list@.len() as int, *facts); }
                return Err(e);
            }
        }
        i = i + 1;
    }
    proof { lemma_fw_check_each(fw_list@, fw_list@.len() as int, *facts); }

    let want_fw = fw.is_some();
    let want_nat = nat_list.len() > 0;
    assert(want_nat ==> nat_cfg is Some);
    if !want_fw && !want_nat {
        let v: Vec<NftTable> = Vec::new();
        assert(v@.map_values(|t: NftTable| t@) =~= Seq::<NftTableView>::empty());
        return Ok(v);
    }
    let drop_policy = match fw {
        Some(f) => match &f.policy {
            Some(p) => str_eq(p.as_str(), "drop"),
            None => false,
        },
        None => false,
    };
    let policy = if drop_policy { Policy::Drop } else { Policy::Accept };

    let mut chains: Vec<ChainSpec> = Vec::new();
    if want_fw {
        chains.push(chain_of("input", Hook::Input, Priority::Filter, ChainType::Filter, Some(policy)));
        chains.push(chain_of("forward", Hook::Forward, Priority::Filter, ChainType::Filter, Some(policy)));
    }
    if want_nat {
        chains.push(chain_of("prerouting", Hook::Prerouting, Priority::DstNat, ChainType::Nat, None));
        chains.push(chain_of("postrouting", Hook::Postrouting, Priority::SrcNat, ChainType::Nat, None));
    }

    let mut rules: Vec<KeyedRule> = Vec::new();
    let mut j: usize = 0;
    while j < fw_list.len()
        invariant
            facts.wf(),
            no_text@ == Seq::<char>::empty(),
            fw_list@ == fw_rules,
            j <= fw_list@.len(),
            rules@.len() == j,
            forall|i: int| 0 <= i < fw_list@.len() && text_or_empty(#[trigger] fw_list@[i].match_expr).len() > 0
                ==> expr_matches(text_or_empty(fw_list@[i].match_expr), *facts) is Ok,
            forall|k: int| 0 <= k < j ==> #[trigger] rules@[k]@ == fw_rule_view(fw_list@[k], k, *facts),
        decreases fw_list@.len() - j,
    {
        let rule = &fw_list[j];
        let expr: &str = match &rule.match_expr { Some(e) => e.as_str(), None => no_text.as_str() };
        assert(expr@ == text_or_empty(fw_list@[j as int].match_expr));
        let matches = if to_chars(expr).len() > 0 {
            let start: Vec<RuleMatch> = Vec::new();
            assert(match_views(start@) =~= Seq::<RuleMatchView>::empty());
            match apply_match_expr(start, expr, facts) {
                Ok(ms) => {
                    assert(Seq::<RuleMatchView>::empty() + match_views(ms@) =~= match_views(ms@));
                    ms
                },
                Err(e) => {
                    return Err(e);
                },
            }
        } else {
            let v: Vec<RuleMatch> = Vec::new();
            assert(match_views(v@) =~= Seq::<RuleMatchView>::empty());
            v
        };
        let drop = match &rule.action {
            Some(a) => str_eq(a.as_str(), "drop"),
            None => false,
        };
        let kr = KeyedRule {
            chain: crate::text::owned("input"),
            key: fw_key(j),
            matches,
            verdict: Some(if drop { Verdict::Drop } else { Verdict::Accept }),
        };
        rules.push(kr);
        j = j + 1;
    }

    proof {
        if want_nat {
            lemma_nat_check_each(nat_list@, nat_list@.len() as int, *facts);
        }
    }
    let mut k: usize = 0;
    while k < nat_list.len()
        invariant
            facts.wf(),
            k <= nat_list@.len(),
            rules@.len() == fw_list@.len() + k,
            match nat_cfg {
                Some(n) => nat_list@ == n.rules@ && nat_plannable(*n, *facts),
                None => nat_list@.len() == 0,
            },
            nat_list@ == nat_rules,
            fw_list@ == fw_rules,
            nat_rules.len() > 0 ==> forall|i: int| 0 <= i < nat_rules.len() ==> nat_rule_error(#[trigger] nat_rules[i], *facts) is None,
            forall|x: int| 0 <= x < fw_list@.len() ==> #[trigger] rules@[x]@ == fw_rule_view(fw_list@[x], x, *facts),
            forall|x: int| 0 <= x < k ==> #[trigger] rules@[fw_list@.len() + x]@ == nat_rule_view(nat_list@[x], x, *facts),
        decreases nat_list@.len() - k,
    {
        let r = &nat_list[k];
        assert(!(nat_list@[k as int].action is Translate));
        let kr = match r.action {
            NatAction::Masquerade => {
                let ms = cidr_matches_exec(&r.src, facts, true);
                KeyedRule {
                    chain: crate::text::owned("postrouting"),
                    key: keyed("nlink-lab/nat/postrouting/", k, "/masq"),
                    matches: ms,
                    verdict: Some(Verdict::Masquerade),
                }
            },
            NatAction::Snat => {
                let ms = cidr_matches_exec(&r.src, facts, true);
                let verdict = match &r.target {
                    Some(t) => Some(Verdict::Snat { addr: v4_shown_exec(t.as_str(), facts) }),
                    None => None,
                };
                KeyedRule {
                    chain: crate::text::owned("postrouting"),
                    key: keyed("nlink-lab/nat/postrouting/", k, "/snat"),
                    matches: ms,
                    verdict,
                }
            },
            _ => {
                let ms = cidr_matches_exec(&r.dst, facts, false);
                let verdict = match &r.target {
                    Some(t) => Some(Verdict::Dnat { addr: v4_shown_exec(t.as_str(), facts), port: r.target_port }),
                    None => None,
                };
                KeyedRule {
                    chain: crate::text::owned("prerouting"),
                    key: keyed("nlink-lab/nat/prerouting/", k, "/dnat"),
                    matches: ms,
                    verdict,
                }
            },
        };
        assert(kr@ == nat_rule_view(nat_list@[k as int], k as int, *facts));
        rules.push(kr);
        k = k + 1;
    }

    proof {
        let fw_chains = if want_fw {
            seq![filter_chain("input"@, Hook::Input, policy), filter_chain("forward"@, Hook::Forward, policy)]
        } else {
            Seq::empty()
        };
        let nat_chains = if want_nat {
            seq![nat_chain("prerouting"@, Hook::Prerouting, Priority::DstNat),
                nat_chain("postrouting"@, Hook::Postrouting, Priority::SrcNat)]
        } else {
            Seq::empty()
        };
        assert(chains@.map_values(|c: ChainSpec| c@) =~= fw_chains + nat_chains);
    }
    let table = NftTable { name: crate::text::owned("nlink-lab"), chains, rules };
    let mut v: Vec<NftTable> = Vec::new();
    v.push(table);
    proof {
        let want = nft_tables(match fw { Some(f) => Some(*f), None => None },
            match nat_cfg { Some(n) => Some(*n), None => None }, *facts);
        let fw_rs = Seq::new(fw_rules.len(), |i: int| fw_rule_view(fw_rules[i], i, *facts));
        let nat_rs = Seq::new(nat_rules.len(), |i: int| nat_rule_view(nat_rules[i], i, *facts));
        assert(table@.rules.len() == (fw_rs + nat_rs).len());
        assert forall|i: int| 0 <= i < table@.rules.len() implies table@.rules[i] == (fw_rs + nat_rs)[i] by {
            if i < fw_rules.len() {
                assert(rules@[i]@ == fw_rule_view(fw_list@[i], i, *facts));
            } else {
                let x = i - fw_rules.len();
                assert(rules@[fw_list@.len() + x]@ == nat_rule_view(nat_list@[x], x, *facts));
            }
        }
        assert(table@.rules =~= fw_rs + nat_rs);
        assert(v@.map_values(|t: NftTable| t@) =~= seq![table@]);
    }
    Ok(v)
}


/// A source NAT or masquerade rule with a source CIDR matches packets
/// from that network, in the postrouting chain; a destination NAT rule
/// with a destination CIDR matches packets to it, in the prerouting
/// chain. Rule `i` of the NAT rules is the rule after the firewall's.
pub proof fn lemma_nat_rule_matches(fw: Option<FirewallConfig>, nat_cfg: NatConfig, facts: StrMap<AddrFacts>, i: int,
    c: String, a: Seq<char>, p: u8)
    requires
        0 <= i < nat_cfg.rules@.len(),
        nft_tables(fw, Some(nat_cfg), facts) is Ok,
    ensures
        ({
            let ts = nft_tables(fw, Some(nat_cfg), facts)->Ok_0;
            let n = match fw { Some(f) => f.rules@.len(), None => 0 };
            let r = nat_cfg.rules@[i];
            &&& ts.len() == 1
            &&& ts[0].rules.len() == n + nat_cfg.rules@.len()
            &&& (r.action is Snat || r.action is Masquerade) && r.src == Some(c) && v4_cidr(c@, facts) == Ok::<(Seq<char>, u8), Seq<char>>((a, p))
                ==> ts[0].rules[n + i].chain == "postrouting"@
                    && ts[0].rules[n + i].matches == seq![RuleMatchView::Saddr4 { addr: a, prefix: p }]
            &&& r.action is Dnat && r.dst == Some(c) && v4_cidr(c@, facts) == Ok::<(Seq<char>, u8), Seq<char>>((a, p))
                ==> ts[0].rules[n + i].chain == "prerouting"@
                    && ts[0].rules[n + i].matches == seq![RuleMatchView::Daddr4 { addr: a, prefix: p }]
        }),
{
    let ts = nft_tables(fw, Some(nat_cfg), facts)->Ok_0;
    let fw_rules = match fw { Some(f) => f.rules@, None => Seq::<FirewallRule>::empty() };
    let n = fw_rules.len();
    let nat_rules = nat_cfg.rules@;
    let fw_rs = Seq::new(fw_rules.len(), |k: int| fw_rule_view(fw_rules[k], k, facts));
    let nat_rs = Seq::new(nat_rules.len(), |k: int| nat_rule_view(nat_rules[k], k, facts));
    assert(nat_rules.len() > 0);
    assert(ts[0].rules == fw_rs + nat_rs);
    assert((fw_rs + nat_rs)[n + i] == nat_rs[i]);
}

} // verus!
