//! Routes in VRF tables: each declared route of a node's VRFs resolved
//! into a [`RouteSpec`] the deploy adds (and a later apply can delete)
//! exactly, with the destination normalised to CIDR form.
//!
//! What an address text means (whether it is an IP address, its family,
//! how it prints) is read from an [`AddrFacts`] table that the caller
//! fills by parsing the addresses.
use vstd::prelude::*;
use crate::container::{IntError, int_error_text, is_digit, digit_value};
use crate::error::Error;
use crate::map::StrMap;
use crate::op::{Op, OpView, RouteSpec, RouteSpecView};
use crate::plan::views;
use crate::routes::{AddrFacts, family};
use crate::text::{before_first, after_first, to_chars, find_char, take_chars, skip_chars, string_from_chars,
    push_str, push_dec, dec, str_eq, owned, lemma_first_pos};
use crate::types::{ostr, copy_opt, Node, RouteConfig, VrfConfig};

verus! {

/// For text that is an IP address: its family (`true` for IPv6) and how it
/// prints once parsed.
pub open spec fn ip_fact(facts: StrMap<AddrFacts>, a: Seq<char>) -> Option<(bool, Seq<char>)> {
    if facts.view().contains_key(a) {
        match (facts.view()[a].v6, facts.view()[a].shown) {
            (Some(v6), Some(s)) => Some((v6, s@)),
            _ => None,
        }
    } else {
        None
    }
}

pub(crate) fn ip_fact_of(facts: &StrMap<AddrFacts>, a: &str) -> (r: Option<(bool, String)>)
    requires
        facts.wf(),
    ensures
        match ip_fact(*facts, a@) {
            Some((v6, s)) => r matches Some((x, t)) && x == v6 && t@ == s,
            None => r is None,
        },
{
    match facts.get(a) {
        Some(f) => match (f.v6, &f.shown) {
            (Some(v6), Some(s)) => Some((v6, s.clone())),
            _ => None,
        },
        None => None,
    }
}

/// A route destination in CIDR form: `default` becomes `0.0.0.0/0` (or
/// `::/0` for an IPv6 route: one via an IPv6 gateway, or a destination
/// with a colon), and a bare address becomes a host route (`/32`, `/128`).
pub open spec fn normalized_dest(dest: Seq<char>, rc: RouteConfig, facts: StrMap<AddrFacts>) -> Seq<char> {
    let is_v6 = (rc.via matches Some(g) && family(facts, g@) == Some(true))
        || (dest != "default"@ && dest.contains(':'));
    if dest == "default"@ {
        if is_v6 { "::/0"@ } else { "0.0.0.0/0"@ }
    } else if !dest.contains('/') {
        if is_v6 { dest + "/128"@ } else { dest + "/32"@ }
    } else {
        dest
    }
}

fn has_char_str(s: &str, c: char) -> (b: bool)
    ensures
        b == s@.contains(c),
{
    let cs = to_chars(s);
    find_char(cs.as_slice(), c).is_some()
}

/// The destination in CIDR form (see [`normalized_dest`]).
pub fn normalize_dest(dest: &str, route_config: &RouteConfig, facts: &StrMap<AddrFacts>) -> (r: String)
    requires
        facts.wf(),
    ensures
        r@ == normalized_dest(dest@, *route_config, *facts),
{
    let via_v6 = match &route_config.via {
        Some(g) => match facts.get(g.as_str()) {
            Some(f) => f.v6 == Some(true),
            None => false,
        },
        None => false,
    };
    let is_default = str_eq(dest, "default");
    let is_v6 = via_v6 || (!is_default && has_char_str(dest, ':'));
    if is_default {
        if is_v6 { owned("::/0") } else { owned("0.0.0.0/0") }
    } else if !has_char_str(dest, '/') {
        let mut s = owned(dest);
        if is_v6 {
            push_str(&mut s, "/128");
        } else {
            push_str(&mut s, "/32");
        }
        s
    } else {
        owned(dest)
    }
}

// ─── Prefix lengths ─────────────────────────────────────────────────

/// Left-to-right reading of the digits `ds[0..n]` as a `u8`: the value, or
/// the first error met (a non-digit, or a value past 255).
pub open spec fn read_u8_digits(ds: Seq<char>, n: int) -> Result<int, IntError>
    decreases n,
{
    if n <= 0 {
        Ok(0)
    } else {
        match read_u8_digits(ds, n - 1) {
            Err(e) => Err(e),
            Ok(v) => if !is_digit(ds[n - 1]) {
                Err(IntError::InvalidDigit)
            } else if v * 10 + digit_value(ds[n - 1]) > 255 {
                Err(IntError::PosOverflow)
            } else {
                Ok(v * 10 + digit_value(ds[n - 1]))
            },
        }
    }
}

/// `u8` parsing of text: an optional `+`, then at least one digit.
pub open spec fn parse_u8_spec(s: Seq<char>) -> Result<int, IntError> {
    if s.len() == 0 {
        Err(IntError::Empty)
    } else if s[0] == '+' {
        if s.len() == 1 {
            Err(IntError::InvalidDigit)
        } else {
            read_u8_digits(s.skip(1), s.len() - 1)
        }
    } else {
        read_u8_digits(s, s.len() as int)
    }
}

proof fn lemma_u8_read_stops(ds: Seq<char>, n: int)
    requires
        0 < n <= ds.len(),
        read_u8_digits(ds, n) is Err,
    ensures
        read_u8_digits(ds, ds.len() as int) == read_u8_digits(ds, n),
    decreases ds.len() - n,
{
    if n < ds.len() {
        lemma_u8_read_stops(ds, n + 1);
    }
}

fn read_u8_exec(ds: &[char]) -> (r: Result<u8, IntError>)
    ensures
        match read_u8_digits(ds@, ds@.len() as int) {
            Ok(v) => r matches Ok(x) && x == v,
            Err(e) => r == Err::<u8, IntError>(e),
        },
{
    let mut v: u8 = 0;
    let mut i: usize = 0;
    while i < ds.len()
        invariant
            i <= ds@.len(),
            read_u8_digits(ds@, i as int) == Ok::<int, IntError>(v as int),
        decreases ds@.len() - i,
    {
        let c = ds[i];
        if !('0' <= c && c <= '9') {
            proof { lemma_u8_read_stops(ds@, i as int + 1); }
            return Err(IntError::InvalidDigit);
        }
        let d = (c as u32) - ('0' as u32);
        if (v as u32) * 10 + d > 255 {
            proof { lemma_u8_read_stops(ds@, i as int + 1); }
            return Err(IntError::PosOverflow);
        }
        v = ((v as u32) * 10 + d) as u8;
        i = i + 1;
    }
    Ok(v)
}

/// `u8` parsing with std's rules (see [`parse_u8_spec`]).
pub fn parse_u8(s: &[char]) -> (r: Result<u8, IntError>)
    ensures
        match parse_u8_spec(s@) {
            Ok(v) => r matches Ok(x) && x == v,
            Err(e) => r == Err::<u8, IntError>(e),
        },
{
    if s.len() == 0 {
        Err(IntError::Empty)
    } else if s[0] == '+' {
        if s.len() == 1 {
            Err(IntError::InvalidDigit)
        } else {
            let rest = skip_chars(s, 1);
            read_u8_exec(rest.as_slice())
        }
    } else {
        read_u8_exec(s)
    }
}

// ─── One route ──────────────────────────────────────────────────────

/// The resolved route for `dest` in VRF `vrf` of `node`, or the message
/// of the topology error that rejects it.
pub open spec fn vrf_route(node: Seq<char>, vrf: Seq<char>, dest: Seq<char>, rc: RouteConfig, table: u32,
    facts: StrMap<AddrFacts>) -> Result<RouteSpecView, Seq<char>> {
    let cidr = normalized_dest(dest, rc, facts);
    let head = "vrf '"@ + vrf + "' on node '"@ + node + "': route '"@ + dest + "': "@;
    if !cidr.contains('/') {
        Err(head + "expected CIDR"@)
    } else {
        match ip_fact(facts, before_first(cidr, '/')) {
            None => Err(head + "invalid destination: invalid IP address syntax"@),
            Some((v6, shown)) => match parse_u8_spec(after_first(cidr, '/')) {
                Err(e) => Err(head + "invalid prefix: "@ + int_error_text(e)),
                Ok(p) => {
                    let max: nat = if v6 { 128 } else { 32 };
                    if p > max {
                        Err(head + "prefix /"@ + dec(p as nat) + " exceeds /"@ + dec(max))
                    } else {
                        match rc.via {
                            None => Ok(RouteSpecView {
                                dest: shown, prefix: p as u8, table, via: None, dev: ostr(rc.dev), metric: rc.metric,
                            }),
                            Some(gw) => match ip_fact(facts, gw@) {
                                None => Err(head + "invalid gateway '"@ + gw@ + "': invalid IP address syntax"@),
                                Some((gv6, gshown)) => if gv6 != v6 {
                                    Err(head + "gateway "@ + gshown + " and destination "@ + shown
                                        + " are different address families"@)
                                } else {
                                    Ok(RouteSpecView {
                                        dest: shown, prefix: p as u8, table, via: Some(gshown), dev: ostr(rc.dev),
                                        metric: rc.metric,
                                    })
                                },
                            },
                        }
                    }
                },
            },
        }
    }
}

/// The topology error for route `dest` of VRF `vrf` on `node`.
fn route_error(node: &str, vrf: &str, dest: &str, why: &str) -> (e: Error)
    ensures
        e == Error::InvalidTopology(e->InvalidTopology_0),
        e->InvalidTopology_0@ == "vrf '"@ + vrf@ + "' on node '"@ + node@ + "': route '"@ + dest@ + "': "@ + why@,
{
    let mut s = String::new();
    push_str(&mut s, "vrf '");
    push_str(&mut s, vrf);
    push_str(&mut s, "' on node '");
    push_str(&mut s, node);
    push_str(&mut s, "': route '");
    push_str(&mut s, dest);
    push_str(&mut s, "': ");
    push_str(&mut s, why);
    Error::invalid_topology(s)
}

/// Resolves route `dest` of VRF `vrf_name` on `node_name` into the route
/// to install in `table` (see [`vrf_route`]).
pub fn route_spec(node_name: &str, vrf_name: &str, dest: &str, route_config: &RouteConfig, table: u32,
    facts: &StrMap<AddrFacts>) -> (r: Result<RouteSpec, Error>)
    requires
        facts.wf(),
    ensures
        match vrf_route(node_name@, vrf_name@, dest@, *route_config, table, *facts) {
            Ok(v) => r matches Ok(x) && x@ == v,
            Err(m) => r matches Err(Error::InvalidTopology(s)) && s@ == m,
        },
{
    let cidr = normalize_dest(dest, route_config, facts);
    let cs = to_chars(cidr.as_str());
    let slash = match find_char(cs.as_slice(), '/') {
        Some(i) => i,
        None => return Err(route_error(node_name, vrf_name, dest, "expected CIDR")),
    };
    proof { lemma_first_pos(cs@, '/'); }
    assert(slash < cs.len());
    let addr = string_from_chars(take_chars(cs.as_slice(), slash).as_slice());
    let pfx = skip_chars(cs.as_slice(), slash + 1);
    let (v6, shown) = match ip_fact_of(facts, addr.as_str()) {
        Some(f) => f,
        None => return Err(route_error(node_name, vrf_name, dest, "invalid destination: invalid IP address syntax")),
    };
    let prefix = match parse_u8(pfx.as_slice()) {
        Ok(p) => p,
        Err(e) => {
            let mut why = String::new();
            push_str(&mut why, "invalid prefix: ");
            push_str(&mut why, match e {
                IntError::Empty => "cannot parse integer from empty string",
                IntError::InvalidDigit => "invalid digit found in string",
                IntError::PosOverflow => "number too large to fit in target type",
            });
            return Err(route_error(node_name, vrf_name, dest, why.as_str()));
        },
    };
    let max: u8 = if v6 { 128 } else { 32 };
    if prefix > max {
        let mut why = String::new();
        push_str(&mut why, "prefix /");
        push_dec(&mut why, prefix as u64);
        push_str(&mut why, " exceeds /");
        push_dec(&mut why, max as u64);
        return Err(route_error(node_name, vrf_name, dest, why.as_str()));
    }
    let via = match &route_config.via {
        None => None,
        Some(gw) => match ip_fact_of(facts, gw.as_str()) {
            None => {
                let mut why = String::new();
                push_str(&mut why, "invalid gateway '");
                push_str(&mut why, gw.as_str());
                push_str(&mut why, "': invalid IP address syntax");
                return Err(route_error(node_name, vrf_name, dest, why.as_str()));
            },
            Some((gv6, gshown)) => {
                if gv6 != v6 {
                    let mut why = String::new();
                    push_str(&mut why, "gateway ");
                    push_str(&mut why, gshown.as_str());
                    push_str(&mut why, " and destination ");
                    push_str(&mut why, shown.as_str());
                    push_str(&mut why, " are different address families");
                    return Err(route_error(node_name, vrf_name, dest, why.as_str()));
                }
                Some(gshown)
            },
        },
    };
    Ok(RouteSpec {
        dest: shown,
        prefix,
        table,
        via,
        dev: copy_opt(&route_config.dev),
        metric: route_config.metric,
    })
}


// ─── All routes of a node's VRFs ────────────────────────────────────

/// The routes of the first `n` declared routes of VRF `vrf`, or the first
/// error.
pub open spec fn vrf_routes_upto(node: Seq<char>, vrf: Seq<char>, cfg: VrfConfig, facts: StrMap<AddrFacts>, n: int)
    -> Result<Seq<RouteSpecView>, Seq<char>>
    decreases n,
{
    if n <= 0 {
        Ok(Seq::empty())
    } else {
        match vrf_routes_upto(node, vrf, cfg, facts, n - 1) {
            Err(e) => Err(e),
            Ok(rs) => match vrf_route(node, vrf, cfg.routes.keys()[n - 1], cfg.routes.vals()[n - 1], cfg.table, facts) {
                Err(e) => Err(e),
                Ok(r) => Ok(rs.push(r)),
            },
        }
    }
}

/// The routes of the first `n` VRFs of a node, VRF by VRF, or the first
/// error.
pub open spec fn node_vrf_routes_upto(node: Seq<char>, vrfs: StrMap<VrfConfig>, facts: StrMap<AddrFacts>, n: int)
    -> Result<Seq<RouteSpecView>, Seq<char>>
    decreases n,
{
    if n <= 0 {
        Ok(Seq::empty())
    } else {
        match node_vrf_routes_upto(node, vrfs, facts, n - 1) {
            Err(e) => Err(e),
            Ok(a) => {
                let cfg = vrfs.vals()[n - 1];
                match vrf_routes_upto(node, vrfs.keys()[n - 1], cfg, facts, cfg.routes.keys().len() as int) {
                    Err(e) => Err(e),
                    Ok(b) => Ok(a + b),
                }
            },
        }
    }
}

/// The routes of all VRFs of a node, in VRF-name then destination order.
pub open spec fn node_vrf_routes(node: Seq<char>, n: Node, facts: StrMap<AddrFacts>) -> Result<Seq<RouteSpecView>, Seq<char>> {
    node_vrf_routes_upto(node, n.vrfs, facts, n.vrfs.keys().len() as int)
}

/// The route ops at `node` for resolved routes.
pub open spec fn route_ops(node: Seq<char>, rs: Seq<RouteSpecView>) -> Seq<OpView> {
    rs.map_values(|r: RouteSpecView| OpView::Route { node, route: r })
}

proof fn lemma_vrf_routes_stop(node: Seq<char>, vrf: Seq<char>, cfg: VrfConfig, facts: StrMap<AddrFacts>, n: int, m: int)
    requires
        0 <= n <= m,
        vrf_routes_upto(node, vrf, cfg, facts, n) is Err,
    ensures
        vrf_routes_upto(node, vrf, cfg, facts, m) == vrf_routes_upto(node, vrf, cfg, facts, n),
    decreases m - n,
{
    if n < m {
        lemma_vrf_routes_stop(node, vrf, cfg, facts, n, m - 1);
    }
}

proof fn lemma_node_routes_stop(node: Seq<char>, vrfs: StrMap<VrfConfig>, facts: StrMap<AddrFacts>, n: int, m: int)
    requires
        0 <= n <= m,
        node_vrf_routes_upto(node, vrfs, facts, n) is Err,
    ensures
        node_vrf_routes_upto(node, vrfs, facts, m) == node_vrf_routes_upto(node, vrfs, facts, n),
    decreases m - n,
{
    if n < m {
        lemma_node_routes_stop(node, vrfs, facts, n, m - 1);
    }
}

/// The `Route` ops for every route of the node's VRFs (see
/// [`node_vrf_routes`]); the first route that does not resolve gives the
/// error.
pub fn vrf_route_ops(node_name: &str, node: &Node, facts: &StrMap<AddrFacts>) -> (r: Result<Vec<Op>, Error>)
    requires
        facts.wf(),
    ensures
        match node_vrf_routes(node_name@, *node, *facts) {
            Ok(rs) => r matches Ok(ops) && views(ops@) == route_ops(node_name@, rs),
            Err(m) => r matches Err(Error::InvalidTopology(s)) && s@ == m,
        },
{
    let mut ops: Vec<Op> = Vec::new();
    let ghost mut acc: Seq<RouteSpecView> = Seq::empty();
    let mut i: usize = 0;
    proof { node.vrfs.lemma_lens(); }
    assert(views(ops@) =~= route_ops(node_name@, acc));
    while i < node.vrfs.len()
        invariant
            facts.wf(),
            i <= node.vrfs.keys().len(),
            node.vrfs.keys().len() == node.vrfs.vals().len(),
            node_vrf_routes_upto(node_name@, node.vrfs, *facts, i as int) == Ok::<Seq<RouteSpecView>, Seq<char>>(acc),
            views(ops@) == route_ops(node_name@, acc),
        decreases node.vrfs.keys().len() - i,
    {
        let vrf_name = node.vrfs.key_at(i);
        let cfg = node.vrfs.value_at(i);
        let ghost base = acc;
        let ghost mut b: Seq<RouteSpecView> = Seq::empty();
        let mut j: usize = 0;
        proof { cfg.routes.lemma_lens(); }
        assert(acc =~= base + b);
        while j < cfg.routes.len()
            invariant
                facts.wf(),
                i < node.vrfs.keys().len(),
                node.vrfs.keys().len() == node.vrfs.vals().len(),
                *cfg == node.vrfs.vals()[i as int],
                vrf_name@ == node.vrfs.keys()[i as int],
                j <= cfg.routes.keys().len(),
                cfg.routes.keys().len() == cfg.routes.vals().len(),
                node_vrf_routes_upto(node_name@, node.vrfs, *facts, i as int) == Ok::<Seq<RouteSpecView>, Seq<char>>(base),
                vrf_routes_upto(node_name@, vrf_name@, *cfg, *facts, j as int) == Ok::<Seq<RouteSpecView>, Seq<char>>(b),
                acc == base + b,
                views(ops@) == route_ops(node_name@, acc),
            decreases cfg.routes.keys().len() - j,
        {
            let dest = cfg.routes.key_at(j);
            let rc = cfg.routes.value_at(j);
            match route_spec(node_name, vrf_name.as_str(), dest.as_str(), rc, cfg.table, facts) {
                Ok(route) => {
                    let ghost before = ops@;
                    let op = Op::Route { node: owned(node_name), route };
                    ops.push(op);
                    proof {
                        b = b.push(route@);
                        acc = base + b;
                        assert(views(ops@) =~= views(before).push(op@));
                        assert(route_ops(node_name@, acc) =~= route_ops(node_name@, acc.drop_last()).push(op@));
                        assert(acc.drop_last() =~= base + b.drop_last());
                    }
                    j = j + 1;
                },
                Err(e) => {
                    proof {
                        lemma_vrf_routes_stop(node_name@, vrf_name@, *cfg, *facts, j + 1,
                            cfg.routes.keys().len() as int);
                        lemma_node_routes_stop(node_name@, node.vrfs, *facts, i + 1, node.vrfs.keys().len() as int);
                    }
                    return Err(e);
                },
            }
        }
        i = i + 1;
    }
    Ok(ops)
}

} // verus!
