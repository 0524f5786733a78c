//! The decisions of applying a topology diff to a running lab: which
//! sysctls a node's change writes, and what a per-peer impairer on
//! `(network, source node)` acts on — the source's interface in the
//! network and the address of each destination node.
//!
//! Whether a port address is an IP address, and how it prints, is read
//! from an [`AddrFacts`] table that the caller fills by parsing the
//! addresses.
use vstd::prelude::*;
use crate::diff::{SysctlChange, SysctlChangeView};
use crate::error::Error;
use crate::map::StrMap;
use crate::routes::AddrFacts;
use crate::text::{to_chars, find_char, take_chars, string_from_chars, before_first, lemma_first_pos, push_str,
    str_eq, owned};
use crate::types::{Network, NetworkImpairment, EndpointRef, endpoint_parts};
use crate::vrf::{ip_fact, ip_fact_of};

verus! {

// ─── Sysctls ────────────────────────────────────────────────────────

/// The `(key, value)` writes of a node's sysctl change: the added entries,
/// then the changed ones with their new values. Removed keys are left at
/// their kernel value.
pub open spec fn sysctl_writes(c: SysctlChangeView) -> Seq<(Seq<char>, Seq<char>)> {
    c.added + c.changed.map_values(|t: (Seq<char>, Seq<char>, Seq<char>)| (t.0, t.2))
}

/// The views of `(key, value)` pairs.
pub open spec fn pair_views(v: Seq<(String, String)>) -> Seq<(Seq<char>, Seq<char>)> {
    v.map_values(|p: (String, String)| (p.0@, p.1@))
}

/// The sysctl writes of a change (see [`sysctl_writes`]).
pub fn sysctl_writes_of(change: &SysctlChange) -> (r: Vec<(String, String)>)
    ensures
        pair_views(r@) == sysctl_writes(change@),
{
    let mut out: Vec<(String, String)> = Vec::new();
    let mut i: usize = 0;
    while i < change.added.len()
        invariant
            i <= change.added@.len(),
            pair_views(out@) == change@.added.take(i as int),
        decreases change.added@.len() - i,
    {
        let (k, v) = &change.added[i];
        let ghost before = out@;
        out.push((owned(k.as_str()), owned(v.as_str())));
        assert(pair_views(out@) =~= pair_views(before).push((k@, v@)));
        assert(change@.added.take(i + 1) =~= change@.added.take(i as int).push((k@, v@)));
        i = i + 1;
    }
    assert(change@.added.take(i as int) =~= change@.added);
    let ghost news = change@.changed.map_values(|t: (Seq<char>, Seq<char>, Seq<char>)| (t.0, t.2));
    let mut j: usize = 0;
    while j < change.changed.len()
        invariant
            j <= change.changed@.len(),
            news == change@.changed.map_values(|t: (Seq<char>, Seq<char>, Seq<char>)| (t.0, t.2)),
            pair_views(out@) == change@.added + news.take(j as int),
        decreases change.changed@.len() - j,
    {
        let (k, _, new) = &change.changed[j];
        let ghost before = out@;
        out.push((owned(k.as_str()), owned(new.as_str())));
        assert(pair_views(out@) =~= pair_views(before).push((k@, new@)));
        assert(news.take(j + 1) =~= news.take(j as int).push((k@, new@)));
        j = j + 1;
    }
    assert(news.take(j as int) =~= news);
    out
}

// ─── Per-peer impairer targets ──────────────────────────────────────

/// The IP address of network member `m`: the address part of its port's
/// first address, where that has a prefix and parses.
pub open spec fn member_ip(net: Network, m: Seq<char>, facts: StrMap<AddrFacts>) -> Option<(bool, Seq<char>)> {
    if net.ports.view().contains_key(m) {
        let a = net.ports.view()[m].addresses@;
        if a.len() > 0 && a[0]@.contains('/') {
            ip_fact(facts, before_first(a[0]@, '/'))
        } else {
            None
        }
    } else {
        None
    }
}

/// The address of each node among the first `n` members, from the first
/// of its members that has one.
pub open spec fn node_ips_upto(net: Network, facts: StrMap<AddrFacts>, n: int) -> Map<Seq<char>, (bool, Seq<char>)>
    decreases n,
{
    if n <= 0 {
        Map::empty()
    } else {
        let prev = node_ips_upto(net, facts, n - 1);
        let m = net.members@[n - 1]@;
        match endpoint_parts(m) {
            Some((node, _)) => match member_ip(net, m, facts) {
                Some(ip) => if prev.contains_key(node) { prev } else { prev.insert(node, ip) },
                None => prev,
            },
            None => prev,
        }
    }
}

/// The interface of the first of the first `n` members that is on node
/// `src`.
pub open spec fn src_iface_upto(net: Network, src: Seq<char>, n: int) -> Option<Seq<char>>
    decreases n,
{
    if n <= 0 {
        None
    } else {
        match src_iface_upto(net, src, n - 1) {
            Some(i) => Some(i),
            None => match endpoint_parts(net.members@[n - 1]@) {
                Some((node, iface)) => if node == src { Some(iface) } else { None },
                None => None,
            },
        }
    }
}

/// The views of a table of node addresses.
pub open spec fn ip_views(m: Map<Seq<char>, (bool, String)>) -> Map<Seq<char>, (bool, Seq<char>)> {
    m.map_values(|v: (bool, String)| (v.0, v.1@))
}

/// What a per-peer impairer acts on: the source node's interface in the
/// network, and the address of each member node by name.
#[derive(Debug)]
pub struct ImpairTargets {
    pub iface: Option<String>,
    pub node_ips: StrMap<(bool, String)>,
}

/// The address of a member's port, where it has one.
fn member_ip_of(net: &Network, m: &str, facts: &StrMap<AddrFacts>) -> (r: Option<(bool, String)>)
    requires
        net.wf(),
        facts.wf(),
    ensures
        match member_ip(*net, m@, *facts) {
            Some((v6, a)) => r matches Some((x, t)) && x == v6 && t@ == a,
            None => r is None,
        },
{
    let port = match net.ports.get(m) {
        Some(p) => p,
        None => return None,
    };
    if port.addresses.len() == 0 {
        return None;
    }
    let cs = to_chars(port.addresses[0].as_str());
    match find_char(cs.as_slice(), '/') {
        Some(k) => {
            proof { lemma_first_pos(cs@, '/'); }
            let addr = string_from_chars(take_chars(cs.as_slice(), k).as_slice());
            ip_fact_of(facts, addr.as_str())
        },
        None => None,
    }
}

/// The interface of `src_node` in the network and the address of each
/// member node (see [`src_iface_upto`], [`node_ips_upto`]).
pub fn impair_targets(net: &Network, src_node: &str, facts: &StrMap<AddrFacts>) -> (r: ImpairTargets)
    requires
        net.wf(),
        facts.wf(),
    ensures
        r.node_ips.wf(),
        ip_views(r.node_ips.view()) == node_ips_upto(*net, *facts, net.members@.len() as int),
        match src_iface_upto(*net, src_node@, net.members@.len() as int) {
            Some(i) => r.iface matches Some(s) && s@ == i,
            None => r.iface is None,
        },
{
    let mut iface: Option<String> = None;
    let mut node_ips: StrMap<(bool, String)> = StrMap::new();
    assert(ip_views(node_ips.view()) =~= Map::<Seq<char>, (bool, Seq<char>)>::empty());
    let mut i: usize = 0;
    while i < net.members.len()
        invariant
            i <= net.members@.len(),
            net.wf(),
            facts.wf(),
            node_ips.wf(),
            ip_views(node_ips.view()) == node_ips_upto(*net, *facts, i as int),
            match src_iface_upto(*net, src_node@, i as int) {
                Some(x) => iface matches Some(s) && s@ == x,
                None => iface is None,
            },
        decreases net.members@.len() - i,
    {
        let member = net.members[i].as_str();
        match EndpointRef::parse(member) {
            Some(ep) => {
                if iface.is_none() && str_eq(ep.node.as_str(), src_node) {
                    iface = Some(owned(ep.iface.as_str()));
                }
                match member_ip_of(net, member, facts) {
                    Some(ip) => {
                        if !node_ips.contains_key(ep.node.as_str()) {
                            let ghost before = node_ips.view();
                            let ghost v = (ip.0, ip.1@);
                            node_ips.insert(owned(ep.node.as_str()), ip);
                            assert(ip_views(node_ips.view()) =~= ip_views(before).insert(ep.node@, v));
                        }
                    },
                    None => {},
                }
            },
            None => {},
        }
        i = i + 1;
    }
    ImpairTargets { iface, node_ips }
}

/// The addresses of the destinations of the first `n` rules, or the first
/// destination node without one.
pub open spec fn dst_ips_upto(rules: Seq<NetworkImpairment>, ips: Map<Seq<char>, (bool, Seq<char>)>, n: int)
    -> Result<Seq<(bool, Seq<char>)>, Seq<char>>
    decreases n,
{
    if n <= 0 {
        Ok(Seq::empty())
    } else {
        match dst_ips_upto(rules, ips, n - 1) {
            Err(d) => Err(d),
            Ok(s) => if ips.contains_key(rules[n - 1].dst@) {
                Ok(s.push(ips[rules[n - 1].dst@]))
            } else {
                Err(rules[n - 1].dst@)
            },
        }
    }
}

proof fn lemma_dst_ips_fail(rules: Seq<NetworkImpairment>, ips: Map<Seq<char>, (bool, Seq<char>)>, i: int, n: int)
    requires
        0 <= i <= n,
        dst_ips_upto(rules, ips, i) is Err,
    ensures
        dst_ips_upto(rules, ips, n) == dst_ips_upto(rules, ips, i),
    decreases n - i,
{
    if i < n {
        lemma_dst_ips_fail(rules, ips, i, n - 1);
    }
}

/// The views of a sequence of addresses.
pub open spec fn addr_views(v: Seq<(bool, String)>) -> Seq<(bool, Seq<char>)> {
    v.map_values(|a: (bool, String)| (a.0, a.1@))
}

/// The address of each rule's destination node, in rule order; a
/// destination without an address in the network fails the reconcile.
pub fn impair_dst_ips(network: &str, rules: &Vec<NetworkImpairment>, targets: &ImpairTargets)
    -> (r: Result<Vec<(bool, String)>, Error>)
    requires
        targets.node_ips.wf(),
    ensures
        match dst_ips_upto(rules@, ip_views(targets.node_ips.view()), rules@.len() as int) {
            Ok(s) => r matches Ok(v) && addr_views(v@) == s,
            Err(d) => r matches Err(Error::DeployFailed(m))
                && m@ == "network '"@ + network@ + "': cannot resolve IP for dst node '"@ + d + "'"@,
        },
{
    let ghost ips = ip_views(targets.node_ips.view());
    let mut out: Vec<(bool, String)> = Vec::new();
    assert(addr_views(out@) =~= Seq::<(bool, Seq<char>)>::empty());
    let mut i: usize = 0;
    while i < rules.len()
        invariant
            i <= rules@.len(),
            targets.node_ips.wf(),
            ips == ip_views(targets.node_ips.view()),
            dst_ips_upto(rules@, ips, i as int) == Ok::<Seq<(bool, Seq<char>)>, Seq<char>>(addr_views(out@)),
        decreases rules@.len() - i,
    {
        let dst = rules[i].dst.as_str();
        match targets.node_ips.get(dst) {
            Some(ip) => {
                let ghost before = out@;
                out.push((ip.0, owned(ip.1.as_str())));
                assert(addr_views(out@) =~= addr_views(before).push((ip.0, ip.1@)));
            },
            None => {
                let mut m = String::new();
                push_str(&mut m, "network '");
                push_str(&mut m, network);
                push_str(&mut m, "': cannot resolve IP for dst node '");
                push_str(&mut m, dst);
                push_str(&mut m, "'");
                proof { lemma_dst_ips_fail(rules@, ips, i + 1, rules@.len() as int); }
                return Err(Error::DeployFailed(m));
            },
        }
        i = i + 1;
    }
    Ok(out)
}

} // verus!
