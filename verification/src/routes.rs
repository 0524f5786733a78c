//! Static routes the planner adds for the lab's routing mode: a default
//! route for hosts, and for routers (nodes that forward the family) a route
//! to every remote subnet via the neighbour through which a breadth-first
//! search reaches it. IPv4 and IPv6 are computed independently.
//!
//! What an address text means (its family, its network) is read from an
//! [`AddrFacts`] table that the caller fills by parsing the addresses.
use vstd::prelude::*;
use crate::map::StrMap;
use crate::text::{before_first, owned, str_eq};
use crate::types::{Topology, Link, Network, PortConfig, RouteConfig, RoutingMode, EndpointRef, endpoint_parts};

verus! {

// ─── Address facts ──────────────────────────────────────────────────

/// What an address text denotes: for an IP address, its family; for an
/// address with a prefix length, its network as `network/prefix`.
#[derive(Debug, Clone)]
pub struct AddrFacts {
    /// `Some(true)` for IPv6, `Some(false)` for IPv4, `None` for text that
    /// is no address.
    pub v6: Option<bool>,
    /// The network of `address/prefix` text, where that parses.
    pub network: Option<String>,
    /// For an IP address, how it prints once parsed (`::0001` prints as
    /// `::1`).
    pub shown: Option<String>,
}

/// The family of address text `a` (`None`: not an address).
pub open spec fn family(facts: StrMap<AddrFacts>, a: Seq<char>) -> Option<bool> {
    if facts.view().contains_key(a) { facts.view()[a].v6 } else { None }
}

/// The network of `address/prefix` text `a`.
pub open spec fn network(facts: StrMap<AddrFacts>, a: Seq<char>) -> Option<Seq<char>> {
    if facts.view().contains_key(a) {
        match facts.view()[a].network {
            Some(n) => Some(n@),
            None => None,
        }
    } else {
        None
    }
}

/// An address (with or without prefix) of the family.
pub open spec fn in_family(facts: StrMap<AddrFacts>, addr: Seq<char>, v6: bool) -> bool {
    family(facts, before_first(addr, '/')) == Some(v6)
}

fn family_of(facts: &StrMap<AddrFacts>, a: &str) -> (r: Option<bool>)
    requires
        facts.wf(),
    ensures
        r == family(*facts, a@),
{
    match facts.get(a) {
        Some(f) => f.v6,
        None => None,
    }
}

fn network_of(facts: &StrMap<AddrFacts>, a: &str) -> (r: Option<String>)
    requires
        facts.wf(),
    ensures
        match network(*facts, a@) {
            Some(n) => r matches Some(s) && s@ == n,
            None => r is None,
        },
{
    match facts.get(a) {
        Some(f) => match &f.network {
            Some(n) => Some(n.clone()),
            None => None,
        },
        None => None,
    }
}

/// The address part of an address text (before any `/`).
fn address_text(addr: &str) -> (r: String)
    ensures
        r@ == before_first(addr@, '/'),
{
    let cs = crate::text::to_chars(addr);
    match crate::text::find_char(cs.as_slice(), '/') {
        Some(i) => crate::text::string_from_chars(crate::text::take_chars(cs.as_slice(), i).as_slice()),
        None => owned(addr),
    }
}

fn is_family(facts: &StrMap<AddrFacts>, addr: &str, v6: bool) -> (b: bool)
    requires
        facts.wf(),
    ensures
        b == in_family(*facts, addr@, v6),
{
    let ip = address_text(addr);
    match family_of(facts, ip.as_str()) {
        Some(f) => f == v6,
        None => false,
    }
}

// ─── The graph of a family ──────────────────────────────────────────

/// The adjacency entries `(node, neighbour, gateway)` of a link whose two
/// addresses are of the family: each end reaches the other through the
/// other's address.
pub open spec fn link_edges(facts: StrMap<AddrFacts>, l: Link, v6: bool) -> Seq<(Seq<char>, Seq<char>, Seq<char>)> {
    match l.addresses {
        Some(a) => if in_family(facts, a@[0]@, v6) && in_family(facts, a@[1]@, v6) {
            match (endpoint_parts(l.endpoints@[0]@), endpoint_parts(l.endpoints@[1]@)) {
                (Some((na, _ia)), Some((nb, _ib))) => seq![
                    (na, nb, before_first(a@[1]@, '/')),
                    (nb, na, before_first(a@[0]@, '/')),
                ],
                _ => Seq::empty(),
            }
        } else {
            Seq::empty()
        },
        None => Seq::empty(),
    }
}

/// The subnets `(node, address/prefix)` a link of the family gives its ends.
pub open spec fn link_subnets(facts: StrMap<AddrFacts>, l: Link, v6: bool) -> Seq<(Seq<char>, Seq<char>)> {
    match l.addresses {
        Some(a) => if in_family(facts, a@[0]@, v6) && in_family(facts, a@[1]@, v6) {
            match (endpoint_parts(l.endpoints@[0]@), endpoint_parts(l.endpoints@[1]@)) {
                (Some((na, _ia)), Some((nb, _ib))) => seq![(na, a@[0]@), (nb, a@[1]@)],
                _ => Seq::empty(),
            }
        } else {
            Seq::empty()
        },
        None => Seq::empty(),
    }
}

/// The adjacency entries of the first `n` links.
pub open spec fn links_edges(facts: StrMap<AddrFacts>, ls: Seq<Link>, n: int, v6: bool) -> Seq<(Seq<char>, Seq<char>, Seq<char>)>
    decreases n,
{
    if n <= 0 { Seq::empty() } else { links_edges(facts, ls, n - 1, v6) + link_edges(facts, ls[n - 1], v6) }
}

/// The subnets of the first `n` links.
pub open spec fn links_subnets(facts: StrMap<AddrFacts>, ls: Seq<Link>, n: int, v6: bool) -> Seq<(Seq<char>, Seq<char>)>
    decreases n,
{
    if n <= 0 { Seq::empty() } else { links_subnets(facts, ls, n - 1, v6) + link_subnets(facts, ls[n - 1], v6) }
}

/// The addresses of the family among the first `n` of `addrs`.
pub open spec fn family_addrs(facts: StrMap<AddrFacts>, addrs: Seq<String>, n: int, v6: bool) -> Seq<Seq<char>>
    decreases n,
{
    if n <= 0 {
        Seq::empty()
    } else if in_family(facts, addrs[n - 1]@, v6) {
        family_addrs(facts, addrs, n - 1, v6).push(addrs[n - 1]@)
    } else {
        family_addrs(facts, addrs, n - 1, v6)
    }
}

/// The member `(node, ip)` a bridge port contributes: its node with the
/// first address of the family.
pub open spec fn port_member(facts: StrMap<AddrFacts>, ep: Seq<char>, p: PortConfig, v6: bool) -> Seq<(Seq<char>, Seq<char>)> {
    let fa = family_addrs(facts, p.addresses@, p.addresses@.len() as int, v6);
    match endpoint_parts(ep) {
        Some((node, _i)) => if fa.len() > 0 { seq![(node, before_first(fa[0], '/'))] } else { Seq::empty() },
        None => Seq::empty(),
    }
}

/// The subnets a bridge port gives its node: every address of the family.
pub open spec fn port_subnets(facts: StrMap<AddrFacts>, ep: Seq<char>, p: PortConfig, v6: bool) -> Seq<(Seq<char>, Seq<char>)> {
    let fa = family_addrs(facts, p.addresses@, p.addresses@.len() as int, v6);
    match endpoint_parts(ep) {
        Some((node, _i)) => Seq::new(fa.len(), |k: int| (node, fa[k])),
        None => Seq::empty(),
    }
}

/// The members of the first `n` ports of a network, in key order.
pub open spec fn net_members(facts: StrMap<AddrFacts>, ks: Seq<Seq<char>>, ps: Seq<PortConfig>, n: int, v6: bool) -> Seq<(Seq<char>, Seq<char>)>
    decreases n,
{
    if n <= 0 { Seq::empty() } else { net_members(facts, ks, ps, n - 1, v6) + port_member(facts, ks[n - 1], ps[n - 1], v6) }
}

/// The subnets of the first `n` ports of a network.
pub open spec fn net_port_subnets(facts: StrMap<AddrFacts>, ks: Seq<Seq<char>>, ps: Seq<PortConfig>, n: int, v6: bool) -> Seq<(Seq<char>, Seq<char>)>
    decreases n,
{
    if n <= 0 { Seq::empty() } else { net_port_subnets(facts, ks, ps, n - 1, v6) + port_subnets(facts, ks[n - 1], ps[n - 1], v6) }
}

/// Row `i` of a network's member adjacency, up to column `j`: member `i`
/// reaches each other member through that member's address.
pub open spec fn member_row(ms: Seq<(Seq<char>, Seq<char>)>, i: int, j: int) -> Seq<(Seq<char>, Seq<char>, Seq<char>)>
    decreases j,
{
    if j <= 0 {
        Seq::empty()
    } else if j - 1 != i {
        member_row(ms, i, j - 1).push((ms[i].0, ms[j - 1].0, ms[j - 1].1))
    } else {
        member_row(ms, i, j - 1)
    }
}

/// The first `i` rows of a network's member adjacency.
pub open spec fn member_edges(ms: Seq<(Seq<char>, Seq<char>)>, i: int) -> Seq<(Seq<char>, Seq<char>, Seq<char>)>
    decreases i,
{
    if i <= 0 { Seq::empty() } else { member_edges(ms, i - 1) + member_row(ms, i - 1, ms.len() as int) }
}

/// The members of a network.
pub open spec fn members_of(facts: StrMap<AddrFacts>, net: Network, v6: bool) -> Seq<(Seq<char>, Seq<char>)> {
    net_members(facts, net.ports.keys(), net.ports.vals(), net.ports.keys().len() as int, v6)
}

/// The adjacency entries of the first `n` networks.
pub open spec fn networks_edges(facts: StrMap<AddrFacts>, ns: Seq<Network>, n: int, v6: bool) -> Seq<(Seq<char>, Seq<char>, Seq<char>)>
    decreases n,
{
    if n <= 0 {
        Seq::empty()
    } else {
        networks_edges(facts, ns, n - 1, v6) + member_edges(members_of(facts, ns[n - 1], v6),
            members_of(facts, ns[n - 1], v6).len() as int)
    }
}

/// The subnets of the first `n` networks.
pub open spec fn networks_subnets(facts: StrMap<AddrFacts>, ns: Seq<Network>, n: int, v6: bool) -> Seq<(Seq<char>, Seq<char>)>
    decreases n,
{
    if n <= 0 {
        Seq::empty()
    } else {
        networks_subnets(facts, ns, n - 1, v6) + net_port_subnets(facts, ns[n - 1].ports.keys(),
            ns[n - 1].ports.vals(), ns[n - 1].ports.keys().len() as int, v6)
    }
}

/// Every adjacency entry of the family: links first, then networks.
pub open spec fn family_edges(facts: StrMap<AddrFacts>, t: Topology, v6: bool) -> Seq<(Seq<char>, Seq<char>, Seq<char>)> {
    links_edges(facts, t.links@, t.links@.len() as int, v6)
        + networks_edges(facts, t.networks.vals(), t.networks.vals().len() as int, v6)
}

/// Every subnet of the family.
pub open spec fn family_subnets(facts: StrMap<AddrFacts>, t: Topology, v6: bool) -> Seq<(Seq<char>, Seq<char>)> {
    links_subnets(facts, t.links@, t.links@.len() as int, v6)
        + networks_subnets(facts, t.networks.vals(), t.networks.vals().len() as int, v6)
}

/// The neighbours `(neighbour, gateway)` of node `x`, in entry order.
pub open spec fn nbrs(edges: Seq<(Seq<char>, Seq<char>, Seq<char>)>, x: Seq<char>) -> Seq<(Seq<char>, Seq<char>)>
    decreases edges.len(),
{
    if edges.len() == 0 {
        Seq::empty()
    } else {
        let p = nbrs(edges.drop_last(), x);
        if edges.last().0 == x { p.push((edges.last().1, edges.last().2)) } else { p }
    }
}

/// The subnets of node `x`.
pub open spec fn subnets_of(subs: Seq<(Seq<char>, Seq<char>)>, x: Seq<char>) -> Set<Seq<char>> {
    Set::new(|s: Seq<char>| subs.contains((x, s)))
}

/// The views of `(name, address)` string pairs.
pub open spec fn pair_views(v: Seq<(String, String)>) -> Seq<(Seq<char>, Seq<char>)> {
    v.map_values(|p: (String, String)| (p.0@, p.1@))
}

/// `adj` holds each node's neighbours as listed by `edges`.
pub open spec fn adj_match(adj: StrMap<Vec<(String, String)>>, edges: Seq<(Seq<char>, Seq<char>, Seq<char>)>) -> bool {
    &&& adj.wf()
    &&& forall|n: Seq<char>| #[trigger] adj.view().contains_key(n) ==> pair_views(adj.view()[n]@) == nbrs(edges, n)
    &&& forall|n: Seq<char>| !adj.view().contains_key(n) ==> #[trigger] nbrs(edges, n).len() == 0
}

/// `sub` holds each node's subnets as listed by `subs`.
pub open spec fn sub_match(sub: StrMap<Vec<String>>, subs: Seq<(Seq<char>, Seq<char>)>) -> bool {
    &&& sub.wf()
    &&& forall|n: Seq<char>| #[trigger] sub.view().contains_key(n) ==> crate::types::strs(sub.view()[n]@).to_set() == subnets_of(subs, n)
    &&& forall|n: Seq<char>| !sub.view().contains_key(n) ==> #[trigger] subnets_of(subs, n) == Set::<Seq<char>>::empty()
}

fn add_edge(adj: &mut StrMap<Vec<(String, String)>>, node: String, nbr: String, gw: String,
    Ghost(edges): Ghost<Seq<(Seq<char>, Seq<char>, Seq<char>)>>)
    requires
        adj_match(*old(adj), edges),
    ensures
        adj_match(*final(adj), edges.push((node@, nbr@, gw@))),
{
    let ghost e = (node@, nbr@, gw@);
    let ghost ne = edges.push(e);
    let ghost old_view = adj.view();
    assert(ne.drop_last() =~= edges);
    adj.push_at(node, (nbr, gw));
    assert forall|n: Seq<char>| #[trigger] adj.view().contains_key(n) implies pair_views(adj.view()[n]@) == nbrs(ne, n) by {
        if n == e.0 {
            if old_view.contains_key(n) {
                assert(pair_views(adj.view()[n]@) =~= pair_views(old_view[n]@).push((e.1, e.2)));
            } else {
                assert(pair_views(adj.view()[n]@) =~= seq![(e.1, e.2)]);
                assert(nbrs(edges, n) =~= Seq::<(Seq<char>, Seq<char>)>::empty());
                assert(seq![(e.1, e.2)] =~= Seq::<(Seq<char>, Seq<char>)>::empty().push((e.1, e.2)));
            }
        }
    }
    assert forall|n: Seq<char>| !adj.view().contains_key(n) implies #[trigger] nbrs(ne, n).len() == 0 by {
        assert(n != e.0);
        assert(!old_view.contains_key(n));
        assert(nbrs(edges, n).len() == 0);
        assert(nbrs(ne, n) == nbrs(edges, n));
    }
}

fn add_subnet(sub: &mut StrMap<Vec<String>>, node: String, s: String,
    Ghost(subs): Ghost<Seq<(Seq<char>, Seq<char>)>>)
    requires
        sub_match(*old(sub), subs),
    ensures
        sub_match(*final(sub), subs.push((node@, s@))),
{
    let ghost e = (node@, s@);
    let ghost ns = subs.push(e);
    let ghost old_view = sub.view();
    sub.push_at(node, s);
    assert forall|n: Seq<char>| #[trigger] sub.view().contains_key(n) implies
        crate::types::strs(sub.view()[n]@).to_set() == subnets_of(ns, n) by {
        if n == e.0 {
            let before = if old_view.contains_key(n) { crate::types::strs(old_view[n]@) } else { Seq::<Seq<char>>::empty() };
            assert(crate::types::strs(sub.view()[n]@) =~= before.push(e.1));
            assert forall|x: Seq<char>| before.push(e.1).to_set().contains(x) <==> subnets_of(ns, n).contains(x) by {
                if before.push(e.1).to_set().contains(x) {
                    let k = choose|k: int| 0 <= k < before.push(e.1).len() && before.push(e.1)[k] == x;
                    if k < before.len() {
                        assert(before.to_set().contains(x));
                        assert(subs.contains((n, x)));
                        let w = choose|w: int| 0 <= w < subs.len() && subs[w] == (n, x);
                        assert(ns[w] == (n, x));
                    } else {
                        assert(ns[ns.len() - 1] == (n, x));
                    }
                }
                if subnets_of(ns, n).contains(x) {
                    let w = choose|w: int| 0 <= w < ns.len() && ns[w] == (n, x);
                    if w < subs.len() {
                        assert(subs[w] == (n, x));
                        assert(subnets_of(subs, n).contains(x));
                        if old_view.contains_key(n) {
                            assert(before.to_set().contains(x));
                        } else {
                            assert(subnets_of(subs, n) == Set::<Seq<char>>::empty());
                        }
                        let k = choose|k: int| 0 <= k < before.len() && before[k] == x;
                        assert(before.push(e.1)[k] == x);
                    } else {
                        assert(before.push(e.1)[before.len() as int] == x);
                    }
                }
            }
            assert(before.push(e.1).to_set() =~= subnets_of(ns, n));
        } else {
            assert(subnets_of(ns, n) =~= subnets_of(subs, n)) by {
                assert forall|x: Seq<char>| subnets_of(ns, n).contains(x) implies subnets_of(subs, n).contains(x) by {
                    let w = choose|w: int| 0 <= w < ns.len() && ns[w] == (n, x);
                    assert(subs[w] == (n, x));
                }
                assert forall|x: Seq<char>| subnets_of(subs, n).contains(x) implies subnets_of(ns, n).contains(x) by {
                    let w = choose|w: int| 0 <= w < subs.len() && subs[w] == (n, x);
                    assert(ns[w] == (n, x));
                }
            }
        }
    }
    assert forall|n: Seq<char>| !sub.view().contains_key(n) implies #[trigger] subnets_of(ns, n) == Set::<Seq<char>>::empty() by {
        assert(n != e.0);
        assert(subnets_of(ns, n) =~= Set::<Seq<char>>::empty()) by {
            assert forall|x: Seq<char>| !subnets_of(ns, n).contains(x) by {
                if subnets_of(ns, n).contains(x) {
                    let w = choose|w: int| 0 <= w < ns.len() && ns[w] == (n, x);
                    assert(subs[w] == (n, x));
                    assert(subnets_of(subs, n).contains(x));
                }
            }
        }
    }
}

/// The adjacency and subnets of the family (`v6`) in a topology.
fn family_graph(topology: &Topology, facts: &StrMap<AddrFacts>, v6: bool)
    -> (r: (StrMap<Vec<(String, String)>>, StrMap<Vec<String>>))
    requires
        topology.wf(),
        facts.wf(),
    ensures
        adj_match(r.0, family_edges(*facts, *topology, v6)),
        sub_match(r.1, family_subnets(*facts, *topology, v6)),
{
    let mut adj: StrMap<Vec<(String, String)>> = StrMap::new();
    let mut sub: StrMap<Vec<String>> = StrMap::new();
    let ghost mut edges: Seq<(Seq<char>, Seq<char>, Seq<char>)> = Seq::empty();
    let ghost mut subs: Seq<(Seq<char>, Seq<char>)> = Seq::empty();
    proof {
        assert(subnets_of(subs, Seq::<char>::empty()) =~= Set::<Seq<char>>::empty());
        assert forall|n: Seq<char>| !sub.view().contains_key(n) implies #[trigger] subnets_of(subs, n) == Set::<Seq<char>>::empty() by {
            assert(subnets_of(subs, n) =~= Set::<Seq<char>>::empty());
        }
    }
    // point-to-point links
    let mut i: usize = 0;
    while i < topology.links.len()
        invariant
            i <= topology.links@.len(),
            facts.wf(),
            adj_match(adj, edges),
            sub_match(sub, subs),
            edges == links_edges(*facts, topology.links@, i as int, v6),
            subs == links_subnets(*facts, topology.links@, i as int, v6),
        decreases topology.links@.len() - i,
    {
        let link = &topology.links[i];
        match &link.addresses {
            Some(addrs) => {
                if is_family(facts, addrs[0].as_str(), v6) && is_family(facts, addrs[1].as_str(), v6) {
                    match (EndpointRef::parse(link.endpoints[0].as_str()), EndpointRef::parse(link.endpoints[1].as_str())) {
                        (Some(a), Some(b)) => {
                            let ip_a = address_text(addrs[0].as_str());
                            let ip_b = address_text(addrs[1].as_str());
                            add_edge(&mut adj, owned(a.node.as_str()), owned(b.node.as_str()), ip_b, Ghost(edges));
                            proof { edges = edges.push((a.node@, b.node@, before_first(addrs@[1]@, '/'))); }
                            add_edge(&mut adj, owned(b.node.as_str()), owned(a.node.as_str()), ip_a, Ghost(edges));
                            proof { edges = edges.push((b.node@, a.node@, before_first(addrs@[0]@, '/'))); }
                            add_subnet(&mut sub, owned(a.node.as_str()), addrs[0].clone(), Ghost(subs));
                            proof { subs = subs.push((a.node@, addrs@[0]@)); }
                            add_subnet(&mut sub, owned(b.node.as_str()), addrs[1].clone(), Ghost(subs));
                            proof { subs = subs.push((b.node@, addrs@[1]@)); }
                        },
                        _ => {},
                    }
                }
            },
            None => {},
        }
        i = i + 1;
        assert(edges =~= links_edges(*facts, topology.links@, i as int, v6));
        assert(subs =~= links_subnets(*facts, topology.links@, i as int, v6));
    }
    let ghost link_edges_part = edges;
    let ghost link_subs_part = subs;
    // bridge networks
    proof { topology.networks.lemma_view(); }
    let mut j: usize = 0;
    while j < topology.networks.len()
        invariant
            j <= topology.networks.keys().len(),
            topology.wf(),
            facts.wf(),
            adj_match(adj, edges),
            sub_match(sub, subs),
            edges == link_edges_part + networks_edges(*facts, topology.networks.vals(), j as int, v6),
            subs == link_subs_part + networks_subnets(*facts, topology.networks.vals(), j as int, v6),
        decreases topology.networks.keys().len() - j,
    {
        proof { topology.networks.lemma_view(); }
        let net = topology.networks.value_at(j);
        assert(topology.networks.view().contains_key(topology.networks.keys()[j as int]));
        assert(net.ports.wf());
        let ghost e0 = edges;
        let ghost s0 = subs;
        let mut members: Vec<(String, String)> = Vec::new();
        let mut p: usize = 0;
        proof { net.ports.lemma_view(); }
        while p < net.ports.len()
            invariant
                p <= net.ports.keys().len(),
                net.ports.wf(),
                facts.wf(),
                sub_match(sub, subs),
                subs == s0 + net_port_subnets(*facts, net.ports.keys(), net.ports.vals(), p as int, v6),
                pair_views(members@) == net_members(*facts, net.ports.keys(), net.ports.vals(), p as int, v6),
            decreases net.ports.keys().len() - p,
        {
            proof { net.ports.lemma_view(); }
            let ep = net.ports.key_at(p);
            let port = net.ports.value_at(p);
            let ghost sp = subs;
            let ghost mv = pair_views(members@);
            match EndpointRef::parse(ep.as_str()) {
                Some(e) => {
                    let mut first = true;
                    let mut a: usize = 0;
                    let ghost fa_prev: Seq<Seq<char>> = Seq::empty();
                    while a < port.addresses.len()
                        invariant
                            a <= port.addresses@.len(),
                            facts.wf(),
                            sub_match(sub, subs),
                            endpoint_parts(ep@) == Some((e.node@, e.iface@)),
                            subs == sp + Seq::new(family_addrs(*facts, port.addresses@, a as int, v6).len(),
                                |k: int| (e.node@, family_addrs(*facts, port.addresses@, a as int, v6)[k])),
                            first == (family_addrs(*facts, port.addresses@, a as int, v6).len() == 0),
                            first ==> pair_views(members@) == mv,
                            !first ==> pair_views(members@) == mv.push((e.node@,
                                before_first(family_addrs(*facts, port.addresses@, a as int, v6)[0], '/'))),
                        decreases port.addresses@.len() - a,
                    {
                        let addr = &port.addresses[a];
                        let ghost fa = family_addrs(*facts, port.addresses@, a as int, v6);
                        if is_family(facts, addr.as_str(), v6) {
                            if first {
                                let ghost before = members@;
                                let m = (owned(e.node.as_str()), address_text(addr.as_str()));
                                let ghost mvv = (m.0@, m.1@);
                                members.push(m);
                                assert(pair_views(members@) =~= pair_views(before).push(mvv));
                                first = false;
                            }
                            add_subnet(&mut sub, owned(e.node.as_str()), addr.clone(), Ghost(subs));
                            proof { subs = subs.push((e.node@, addr@)); }
                            assert(family_addrs(*facts, port.addresses@, a + 1, v6) == fa.push(addr@));
                            assert(family_addrs(*facts, port.addresses@, a + 1, v6)[0]
                                == (if fa.len() == 0 { addr@ } else { fa[0] }));
                        }
                        a = a + 1;
                        assert(subs =~= sp + Seq::new(family_addrs(*facts, port.addresses@, a as int, v6).len(),
                            |k: int| (e.node@, family_addrs(*facts, port.addresses@, a as int, v6)[k])));
                    }
                    assert(subs =~= sp + port_subnets(*facts, ep@, *port, v6));
                    assert(pair_views(members@) =~= mv + port_member(*facts, ep@, *port, v6));
                },
                None => {
                    assert(subs =~= sp + port_subnets(*facts, ep@, *port, v6));
                    assert(pair_views(members@) =~= mv + port_member(*facts, ep@, *port, v6));
                },
            }
            p = p + 1;
            assert(subs =~= s0 + net_port_subnets(*facts, net.ports.keys(), net.ports.vals(), p as int, v6));
            assert(pair_views(members@) =~= net_members(*facts, net.ports.keys(), net.ports.vals(), p as int, v6));
        }
        // every member reaches every other member
        let ghost ms = pair_views(members@);
        assert(ms == members_of(*facts, *net, v6));
        let mut r: usize = 0;
        while r < members.len()
            invariant
                r <= members@.len(),
                ms == pair_views(members@),
                adj_match(adj, edges),
                edges == e0 + member_edges(ms, r as int),
            decreases members@.len() - r,
        {
            let ghost er = edges;
            let mut c: usize = 0;
            while c < members.len()
                invariant
                    r < members@.len(),
                    c <= members@.len(),
                    ms == pair_views(members@),
                    adj_match(adj, edges),
                    edges == er + member_row(ms, r as int, c as int),
                decreases members@.len() - c,
            {
                if r != c {
                    add_edge(&mut adj, members[r].0.clone(), members[c].0.clone(), members[c].1.clone(), Ghost(edges));
                    proof { edges = edges.push((ms[r as int].0, ms[c as int].0, ms[c as int].1)); }
                }
                c = c + 1;
                assert(edges =~= er + member_row(ms, r as int, c as int));
            }
            r = r + 1;
            assert(edges =~= e0 + member_edges(ms, r as int));
        }
        j = j + 1;
        assert(edges =~= link_edges_part + networks_edges(*facts, topology.networks.vals(), j as int, v6));
        assert(subs =~= link_subs_part + networks_subnets(*facts, topology.networks.vals(), j as int, v6));
    }
    proof { topology.networks.lemma_view(); }
    (adj, sub)
}

// ─── Reachability ───────────────────────────────────────────────────

/// `b` is a neighbour of `a`.
pub open spec fn adjacent(edges: Seq<(Seq<char>, Seq<char>, Seq<char>)>, a: Seq<char>, b: Seq<char>) -> bool {
    exists|i: int| 0 <= i < nbrs(edges, a).len() && #[trigger] nbrs(edges, a)[i].0 == b
}

/// Step `i` of walk `p` goes to a neighbour.
pub open spec fn step(edges: Seq<(Seq<char>, Seq<char>, Seq<char>)>, p: Seq<Seq<char>>, i: int) -> bool {
    adjacent(edges, p[i], p[i + 1])
}

/// `p` is a walk: every step goes to a neighbour.
pub open spec fn is_walk(edges: Seq<(Seq<char>, Seq<char>, Seq<char>)>, p: Seq<Seq<char>>) -> bool {
    p.len() > 0 && forall|i: int| 0 <= i < p.len() - 1 ==> #[trigger] step(edges, p, i)
}

/// A walk leads from `x` to `y`.
pub open spec fn reaches(edges: Seq<(Seq<char>, Seq<char>, Seq<char>)>, x: Seq<char>, y: Seq<char>) -> bool {
    exists|p: Seq<Seq<char>>| #[trigger] is_walk(edges, p) && p[0] == x && p.last() == y
}

/// `g` is the gateway of one of `x`'s neighbours.
pub open spec fn is_gateway(edges: Seq<(Seq<char>, Seq<char>, Seq<char>)>, x: Seq<char>, g: Seq<char>) -> bool {
    exists|i: int| 0 <= i < nbrs(edges, x).len() && #[trigger] nbrs(edges, x)[i].1 == g
}

/// `b` is reached from `a` in at most `k` steps.
pub open spec fn within(edges: Seq<(Seq<char>, Seq<char>, Seq<char>)>, a: Seq<char>, b: Seq<char>, k: int) -> bool {
    exists|p: Seq<Seq<char>>| #[trigger] is_walk(edges, p) && p.len() <= k + 1 && p[0] == a && p.last() == b
}

proof fn lemma_within_self(edges: Seq<(Seq<char>, Seq<char>, Seq<char>)>, a: Seq<char>)
    ensures
        within(edges, a, a, 0),
{
    let p = seq![a];
    assert(is_walk(edges, p) && p.len() <= 1 && p[0] == a && p.last() == a);
}

proof fn lemma_within_zero(edges: Seq<(Seq<char>, Seq<char>, Seq<char>)>, a: Seq<char>, b: Seq<char>, k: int)
    requires
        within(edges, a, b, k),
        k <= 0,
    ensures
        a == b,
{
    let p = choose|p: Seq<Seq<char>>| #[trigger] is_walk(edges, p) && p.len() <= k + 1 && p[0] == a && p.last() == b;
}

/// The last step of a walk of at most `k` steps.
proof fn lemma_within_split(edges: Seq<(Seq<char>, Seq<char>, Seq<char>)>, a: Seq<char>, b: Seq<char>, k: int)
    -> (w: Seq<char>)
    requires
        within(edges, a, b, k),
        k >= 1,
    ensures
        within(edges, a, b, k - 1) || (within(edges, a, w, k - 1) && adjacent(edges, w, b)),
{
    let p = choose|p: Seq<Seq<char>>| #[trigger] is_walk(edges, p) && p.len() <= k + 1 && p[0] == a && p.last() == b;
    if p.len() <= k {
        a
    } else {
        let q = p.drop_last();
        assert(p.len() >= 2);
        assert forall|i: int| 0 <= i < q.len() - 1 implies #[trigger] step(edges, q, i) by {
            assert(step(edges, p, i));
        }
        assert(step(edges, p, p.len() - 2));
        assert(is_walk(edges, q) && q.len() <= k && q[0] == a && q.last() == p[p.len() - 2]);
        p[p.len() - 2]
    }
}

/// `y` is `k` steps from `x`, and no fewer.
pub open spec fn at_distance(edges: Seq<(Seq<char>, Seq<char>, Seq<char>)>, x: Seq<char>, y: Seq<char>, k: int) -> bool {
    within(edges, x, y, k) && (k <= 0 || !within(edges, x, y, k - 1))
}

/// `g` is the gateway of a neighbour of `x` from which `y` is at most
/// `l - 1` steps away.
pub open spec fn hop_ok(edges: Seq<(Seq<char>, Seq<char>, Seq<char>)>, x: Seq<char>, y: Seq<char>, g: Seq<char>, l: int) -> bool {
    exists|i: int| 0 <= i < nbrs(edges, x).len() && #[trigger] nbrs(edges, x)[i].1 == g
        && within(edges, nbrs(edges, x)[i].0, y, l - 1)
}

/// `g` is the gateway of the neighbour of `x` that starts a shortest walk
/// from `x` to `y`.
pub open spec fn first_hop(edges: Seq<(Seq<char>, Seq<char>, Seq<char>)>, x: Seq<char>, y: Seq<char>, g: Seq<char>) -> bool {
    exists|l: int| l > 0 && #[trigger] at_distance(edges, x, y, l) && hop_ok(edges, x, y, g, l)
}

proof fn lemma_within_mono(edges: Seq<(Seq<char>, Seq<char>, Seq<char>)>, a: Seq<char>, b: Seq<char>, k: int, j: int)
    requires
        within(edges, a, b, k),
        k <= j,
    ensures
        within(edges, a, b, j),
{
    let p = choose|p: Seq<Seq<char>>| #[trigger] is_walk(edges, p) && p.len() <= k + 1 && p[0] == a && p.last() == b;
    assert(is_walk(edges, p) && p.len() <= j + 1 && p[0] == a && p.last() == b);
}

/// A node at distance `l` is not reached in fewer steps.
proof fn lemma_dist_le(edges: Seq<(Seq<char>, Seq<char>, Seq<char>)>, x: Seq<char>, z: Seq<char>, l: int, m: int)
    requires
        at_distance(edges, x, z, l),
        within(edges, x, z, m),
        0 <= m,
        0 <= l,
    ensures
        l <= m,
{
    if m < l {
        lemma_within_mono(edges, x, z, m, l - 1);
    }
}

proof fn lemma_within_next(edges: Seq<(Seq<char>, Seq<char>, Seq<char>)>, a: Seq<char>, w: Seq<char>, b: Seq<char>, k: int)
    requires
        within(edges, a, w, k),
        adjacent(edges, w, b),
    ensures
        within(edges, a, b, k + 1),
{
    let p = choose|p: Seq<Seq<char>>| #[trigger] is_walk(edges, p) && p.len() <= k + 1 && p[0] == a && p.last() == w;
    let q = p.push(b);
    assert forall|i: int| 0 <= i < q.len() - 1 implies #[trigger] step(edges, q, i) by {
        if i < p.len() - 1 {
            assert(step(edges, p, i));
            assert(q[i] == p[i] && q[i + 1] == p[i + 1]);
        } else {
            assert(q[i] == w && q[i + 1] == b);
        }
    }
    assert(is_walk(edges, q) && q.len() <= k + 2 && q[0] == a && q.last() == b);
}

/// The levels of the search are right: each queued node is at distance
/// `lv[k]` and carries the gateway of a neighbour that starts a shortest
/// walk to it; levels never decrease along the queue.
pub open spec fn levels_ok(edges: Seq<(Seq<char>, Seq<char>, Seq<char>)>, x: Seq<char>, q: Seq<(Seq<char>, Seq<char>)>,
    lv: Seq<int>) -> bool {
    &&& lv.len() == q.len()
    &&& forall|k: int| 0 <= k < q.len() ==> #[trigger] lv[k] >= 1 && at_distance(edges, x, q[k].0, lv[k])
        && hop_ok(edges, x, q[k].0, q[k].1, lv[k])
    &&& forall|a: int, b: int| 0 <= a < b < q.len() ==> #[trigger] lv[a] <= #[trigger] lv[b]
}

/// A walk to `a`, extended by a neighbour of `a`, reaches that neighbour.
proof fn lemma_reach_step(edges: Seq<(Seq<char>, Seq<char>, Seq<char>)>, x: Seq<char>, a: Seq<char>, b: Seq<char>)
    requires
        reaches(edges, x, a),
        adjacent(edges, a, b),
    ensures
        reaches(edges, x, b),
{
    let p = choose|p: Seq<Seq<char>>| #[trigger] is_walk(edges, p) && p[0] == x && p.last() == a;
    let q = p.push(b);
    assert forall|i: int| 0 <= i < q.len() - 1 implies #[trigger] step(edges, q, i) by {
        if i < p.len() - 1 {
            assert(step(edges, p, i));
            assert(q[i] == p[i] && q[i + 1] == p[i + 1]);
        } else {
            assert(q[i] == a && q[i + 1] == b);
        }
    }
    assert(is_walk(edges, q) && q[0] == x && q.last() == b);
}

/// A neighbour of `x` is reached from `x`.
proof fn lemma_reach_nbr(edges: Seq<(Seq<char>, Seq<char>, Seq<char>)>, x: Seq<char>, b: Seq<char>)
    requires
        adjacent(edges, x, b),
    ensures
        reaches(edges, x, b),
{
    let p = seq![x, b];
    assert forall|i: int| 0 <= i < p.len() - 1 implies #[trigger] step(edges, p, i) by {
        assert(p[i] == x && p[i + 1] == b);
    }
    assert(is_walk(edges, p) && p[0] == x && p.last() == b);
}

/// Every neighbour of `a` is among `vis`.
pub open spec fn expanded(edges: Seq<(Seq<char>, Seq<char>, Seq<char>)>, a: Seq<char>, vis: Seq<Seq<char>>) -> bool {
    forall|i: int| 0 <= i < nbrs(edges, a).len() ==> vis.contains(#[trigger] nbrs(edges, a)[i].0)
}

/// Whatever is reached from a node in a set closed under neighbours is in
/// that set.
proof fn lemma_closed_reach(edges: Seq<(Seq<char>, Seq<char>, Seq<char>)>, vis: Seq<Seq<char>>, p: Seq<Seq<char>>)
    requires
        is_walk(edges, p),
        vis.contains(p[0]),
        forall|a: Seq<char>| vis.contains(a) ==> #[trigger] expanded(edges, a, vis),
    ensures
        vis.contains(p.last()),
    decreases p.len(),
{
    if p.len() > 1 {
        let q = p.drop_last();
        assert forall|i: int| 0 <= i < q.len() - 1 implies #[trigger] step(edges, q, i) by {
            assert(step(edges, p, i));
        }
        lemma_closed_reach(edges, vis, q);
        assert(step(edges, p, p.len() - 2));
        let a = p[p.len() - 2];
        assert(vis.contains(a));
        assert(expanded(edges, a, vis));
        let i = choose|i: int| 0 <= i < nbrs(edges, a).len() && #[trigger] nbrs(edges, a)[i].0 == p.last();
        assert(vis.contains(nbrs(edges, a)[i].0));
    }
}

/// Each neighbour `nbrs(edges, a)[i]` comes from an entry of `edges`.
proof fn lemma_nbr_from_edge(edges: Seq<(Seq<char>, Seq<char>, Seq<char>)>, a: Seq<char>, i: int)
    requires
        0 <= i < nbrs(edges, a).len(),
    ensures
        exists|j: int| 0 <= j < edges.len() && #[trigger] edges[j].1 == nbrs(edges, a)[i].0,
    decreases edges.len(),
{
    let p = nbrs(edges.drop_last(), a);
    if i < p.len() {
        lemma_nbr_from_edge(edges.drop_last(), a, i);
        let j = choose|j: int| 0 <= j < edges.drop_last().len() && #[trigger] edges.drop_last()[j].1 == p[i].0;
        assert(edges[j] == edges.drop_last()[j]);
    } else {
        assert(edges[edges.len() - 1].1 == nbrs(edges, a)[i].0);
    }
}

// ─── Per-node routes ────────────────────────────────────────────────

/// The sysctl that turns forwarding of the family on.
pub open spec fn forward_key(v6: bool) -> Seq<char> {
    if v6 { "net.ipv6.conf.all.forwarding"@ } else { "net.ipv4.ip_forward"@ }
}

/// The destination of the family's default route.
pub open spec fn default_key(v6: bool) -> Seq<char> {
    if v6 { "::/0"@ } else { "default"@ }
}

/// Node `n` forwards the family: its forwarding sysctl is `1`.
pub open spec fn forwards(t: Topology, v6: bool, n: Seq<char>) -> bool {
    &&& t.nodes.view().contains_key(n)
    &&& t.nodes.view()[n].sysctls.view().contains_key(forward_key(v6))
    &&& t.nodes.view()[n].sysctls.view()[forward_key(v6)]@ == "1"@
}

/// A declared route that is a default route of the family: `::/0` for
/// IPv6, `0.0.0.0/0` for IPv4, and `default` of the family of its gateway
/// (IPv4 where that is no address or not given).
pub open spec fn default_entry(facts: StrMap<AddrFacts>, dest: Seq<char>, cfg: RouteConfig, v6: bool) -> bool {
    ||| dest == "::/0"@ && v6
    ||| dest == "0.0.0.0/0"@ && !v6
    ||| dest == "default"@ && match cfg.via {
        Some(g) => match family(facts, g@) {
            Some(is6) => is6 == v6,
            None => !v6,
        },
        None => !v6,
    }
}

/// The declared routes already carry a default route of the family.
pub open spec fn has_default(facts: StrMap<AddrFacts>, existing: StrMap<RouteConfig>, v6: bool) -> bool {
    exists|i: int| 0 <= i < existing.keys().len() && #[trigger] default_entry(facts, existing.keys()[i], existing.vals()[i], v6)
}

/// The gateway of the first neighbour from position `i` on that forwards
/// the family; the first neighbour's where none does.
pub open spec fn first_forwarder(t: Topology, v6: bool, ns: Seq<(Seq<char>, Seq<char>)>, i: int) -> Seq<char>
    decreases ns.len() - i,
{
    if i < 0 || i >= ns.len() {
        ns[0].1
    } else if forwards(t, v6, ns[i].0) {
        ns[i].1
    } else {
        first_forwarder(t, v6, ns, i + 1)
    }
}

/// All of a node's neighbour entries name the same neighbour.
pub open spec fn single_neighbour(ns: Seq<(Seq<char>, Seq<char>)>) -> bool {
    ns.len() == 1 || forall|i: int| 0 <= i < ns.len() ==> #[trigger] ns[i].0 == ns[0].0
}

/// The gateway of a node's default route, for a node that is no router:
/// the neighbour's where it has one, else the first forwarding
/// neighbour's (or the first neighbour's). `None` for a node without
/// neighbours or a router.
pub open spec fn host_gateway(t: Topology, v6: bool, ns: Seq<(Seq<char>, Seq<char>)>, x: Seq<char>) -> Option<Seq<char>> {
    if ns.len() == 0 {
        None
    } else if single_neighbour(ns) {
        Some(ns[0].1)
    } else if !forwards(t, v6, x) {
        Some(first_forwarder(t, v6, ns, 0))
    } else {
        None
    }
}

/// A route holding just a gateway.
pub open spec fn via_only(r: RouteConfig, g: Seq<char>) -> bool {
    r.via matches Some(v) && v@ == g && r.dev is None && r.metric is None
}

/// Network `n` is directly connected to node `x`: one of `x`'s own
/// addresses lies in it.
pub open spec fn own_network(facts: StrMap<AddrFacts>, subs: Seq<(Seq<char>, Seq<char>)>, x: Seq<char>, n: Seq<char>) -> bool {
    exists|o: Seq<char>| #[trigger] subnets_of(subs, x).contains(o) && network(facts, o) == Some(n)
}

/// A subnet `s` that router `x` wants a route for: a remote one (not one of
/// its own addresses, and in no network that `x` is directly connected
/// to), not declared, with a network that is not declared either.
pub open spec fn wanted(t: Topology, facts: StrMap<AddrFacts>, subs: Seq<(Seq<char>, Seq<char>)>, x: Seq<char>, s: Seq<char>) -> bool {
    &&& !subnets_of(subs, x).contains(s)
    &&& !t.nodes.view()[x].routes.view().contains_key(s)
    &&& network(facts, s) is Some
    &&& !own_network(facts, subs, x, network(facts, s)->0)
    &&& !t.nodes.view()[x].routes.view().contains_key(network(facts, s)->0)
}

/// Route `cfg` to `d` at router `x` is justified by subnet `s` of node `y`:
/// `y` is reached from `x`, `s` is wanted and has network `d`, `y` is a
/// nearest holder of a wanted subnet in `d`, and the gateway is that of the
/// neighbour of `x` that starts a shortest walk from `x` to `y`.
pub open spec fn route_source(t: Topology, facts: StrMap<AddrFacts>, edges: Seq<(Seq<char>, Seq<char>, Seq<char>)>,
    subs: Seq<(Seq<char>, Seq<char>)>, x: Seq<char>, y: Seq<char>, s: Seq<char>, d: Seq<char>, cfg: RouteConfig) -> bool {
    &&& reaches(edges, x, y)
    &&& y != x
    &&& subnets_of(subs, y).contains(s)
    &&& wanted(t, facts, subs, x, s)
    &&& network(facts, s) == Some(d)
    &&& cfg.via matches Some(g) && first_hop(edges, x, y, g@)
    &&& nearest_holder(t, facts, edges, subs, x, y, d)
    &&& cfg.dev is None
    &&& cfg.metric is None
}

/// `y`, at distance `l` from `x`, is a nearest node holding a wanted
/// subnet in network `d`: no such holder is fewer steps away.
pub open spec fn nearest_holder(t: Topology, facts: StrMap<AddrFacts>, edges: Seq<(Seq<char>, Seq<char>, Seq<char>)>,
    subs: Seq<(Seq<char>, Seq<char>)>, x: Seq<char>, y: Seq<char>, d: Seq<char>) -> bool {
    exists|l: int| #[trigger] at_distance(edges, x, y, l) && forall|y2: Seq<char>, s2: Seq<char>, m: int|
        #![trigger within(edges, x, y2, m), subnets_of(subs, y2).contains(s2)]
        0 <= m && within(edges, x, y2, m) && subnets_of(subs, y2).contains(s2) && wanted(t, facts, subs, x, s2)
            && network(facts, s2) == Some(d) ==> l <= m
}

/// Every route of `r` is justified.
pub open spec fn routes_sound(t: Topology, facts: StrMap<AddrFacts>, edges: Seq<(Seq<char>, Seq<char>, Seq<char>)>,
    subs: Seq<(Seq<char>, Seq<char>)>, x: Seq<char>, r: Map<Seq<char>, RouteConfig>) -> bool {
    forall|d: Seq<char>| #[trigger] r.contains_key(d) ==> exists|y: Seq<char>, s: Seq<char>|
        #[trigger] route_source(t, facts, edges, subs, x, y, s, d, r[d])
}

/// `r` routes every wanted subnet of node `y`.
pub open spec fn routes_cover(t: Topology, facts: StrMap<AddrFacts>, subs: Seq<(Seq<char>, Seq<char>)>,
    x: Seq<char>, r: Map<Seq<char>, RouteConfig>, y: Seq<char>) -> bool {
    forall|s: Seq<char>| #[trigger] subnets_of(subs, y).contains(s) && wanted(t, facts, subs, x, s)
        ==> r.contains_key(network(facts, s)->0)
}

/// The search after offering the first `j` of the `(node, gateway)` pairs
/// `ns`: each node not visited yet is visited and queued, with gateway
/// `hop` where given, else with its own gateway.
pub open spec fn offer(ns: Seq<(Seq<char>, Seq<char>)>, j: int, hop: Option<Seq<char>>, vis: Seq<Seq<char>>,
    q: Seq<(Seq<char>, Seq<char>)>) -> (Seq<Seq<char>>, Seq<(Seq<char>, Seq<char>)>)
    decreases j,
{
    if j <= 0 {
        (vis, q)
    } else {
        let (v1, q1) = offer(ns, j - 1, hop, vis, q);
        let n = ns[j - 1].0;
        let g = match hop {
            Some(h) => h,
            None => ns[j - 1].1,
        };
        if v1.contains(n) { (v1, q1) } else { (v1.push(n), q1.push((n, g))) }
    }
}

/// The breadth-first search from `x` after expanding `h` queued nodes: it
/// starts at `x` with `x`'s neighbours queued in neighbour order, each
/// with its own gateway; expanding a queued node queues its unvisited
/// neighbours in neighbour order, with the gateway it was queued with.
pub open spec fn search_state(edges: Seq<(Seq<char>, Seq<char>, Seq<char>)>, x: Seq<char>, h: nat)
    -> (Seq<Seq<char>>, Seq<(Seq<char>, Seq<char>)>)
    decreases h,
{
    if h == 0 {
        offer(nbrs(edges, x), nbrs(edges, x).len() as int, None, seq![x], Seq::empty())
    } else {
        let (v, q) = search_state(edges, x, (h - 1) as nat);
        if h - 1 < q.len() {
            offer(nbrs(edges, q[h - 1].0), nbrs(edges, q[h - 1].0).len() as int, Some(q[h - 1].1), v, q)
        } else {
            (v, q)
        }
    }
}

/// `q` is the queue of the finished search from `x`: every node queued has
/// been expanded.
pub open spec fn search_final(edges: Seq<(Seq<char>, Seq<char>, Seq<char>)>, x: Seq<char>, q: Seq<(Seq<char>, Seq<char>)>) -> bool {
    q == search_state(edges, x, q.len() as nat).1
}

/// Once every queued node is expanded the search stays as it is.
proof fn lemma_search_stable(edges: Seq<(Seq<char>, Seq<char>, Seq<char>)>, x: Seq<char>, a: nat, b: nat)
    requires
        a <= b,
        search_state(edges, x, a).1.len() <= a,
    ensures
        search_state(edges, x, b) == search_state(edges, x, a),
    decreases b - a,
{
    if b > a {
        lemma_search_stable(edges, x, a, (b - 1) as nat);
    }
}

/// A search has one finished queue: two queues that are both what the
/// search from `x` ends with are the same.
pub proof fn lemma_search_final_unique(edges: Seq<(Seq<char>, Seq<char>, Seq<char>)>, x: Seq<char>,
    q1: Seq<(Seq<char>, Seq<char>)>, q2: Seq<(Seq<char>, Seq<char>)>)
    requires
        search_final(edges, x, q1),
        search_final(edges, x, q2),
    ensures
        q1 == q2,
{
    let a = q1.len() as nat;
    let b = q2.len() as nat;
    if a <= b {
        lemma_search_stable(edges, x, a, b);
    } else {
        lemma_search_stable(edges, x, b, a);
    }
}

/// Node `y` holds a subnet that router `x` wants, in network `d`.
pub open spec fn holds_wanted(t: Topology, facts: StrMap<AddrFacts>, subs: Seq<(Seq<char>, Seq<char>)>, x: Seq<char>,
    y: Seq<char>, d: Seq<char>) -> bool {
    exists|s: Seq<char>| #[trigger] subnets_of(subs, y).contains(s) && wanted(t, facts, subs, x, s) && network(facts, s) == Some(d)
}

/// Route `cfg` to `d` goes via the gateway that queue entry `h` carries,
/// the first entry of the search whose node holds a wanted subnet in `d`.
pub open spec fn first_holder_route(t: Topology, facts: StrMap<AddrFacts>, subs: Seq<(Seq<char>, Seq<char>)>, x: Seq<char>,
    q: Seq<(Seq<char>, Seq<char>)>, h: int, d: Seq<char>, cfg: RouteConfig) -> bool {
    &&& 0 <= h < q.len()
    &&& holds_wanted(t, facts, subs, x, q[h].0, d)
    &&& forall|h2: int| 0 <= h2 < h ==> !holds_wanted(t, facts, subs, x, (#[trigger] q[h2]).0, d)
    &&& cfg.via matches Some(g) && g@ == q[h].1
}

/// Each route of `r` goes via the gateway of the first node, in search
/// order, that holds a wanted subnet in its network.
pub open spec fn routes_first(t: Topology, facts: StrMap<AddrFacts>, subs: Seq<(Seq<char>, Seq<char>)>, x: Seq<char>,
    q: Seq<(Seq<char>, Seq<char>)>, r: Map<Seq<char>, RouteConfig>) -> bool {
    forall|d: Seq<char>| #[trigger] r.contains_key(d) ==> exists|h: int| first_holder_route(t, facts, subs, x, q, h, d, r[d])
}

/// The routes of router `x`: justified, covering every wanted subnet of
/// every node reached from `x`, and each via the gateway of the first node
/// in breadth-first search order (neighbours in neighbour order) that
/// holds a wanted subnet in its network.
pub open spec fn router_routes_ok(t: Topology, facts: StrMap<AddrFacts>, edges: Seq<(Seq<char>, Seq<char>, Seq<char>)>,
    subs: Seq<(Seq<char>, Seq<char>)>, x: Seq<char>, r: Map<Seq<char>, RouteConfig>) -> bool {
    &&& routes_sound(t, facts, edges, subs, x, r)
    &&& forall|y: Seq<char>| #[trigger] reaches(edges, x, y) && y != x ==> routes_cover(t, facts, subs, x, r, y)
    &&& exists|q: Seq<(Seq<char>, Seq<char>)>| search_final(edges, x, q) && routes_first(t, facts, subs, x, q, r)
}

// ─── Searching a router's routes ───────────────────────────────────

/// The neighbours of `k` (a copy).
fn neighbours(adj: &StrMap<Vec<(String, String)>>, k: &str,
    Ghost(edges): Ghost<Seq<(Seq<char>, Seq<char>, Seq<char>)>>) -> (r: Vec<(String, String)>)
    requires
        adj_match(*adj, edges),
    ensures
        pair_views(r@) == nbrs(edges, k@),
{
    let mut r: Vec<(String, String)> = Vec::new();
    match adj.get(k) {
        Some(v) => {
            let mut i: usize = 0;
            while i < v.len()
                invariant
                    i <= v@.len(),
                    pair_views(r@) == pair_views(v@).take(i as int),
                decreases v@.len() - i,
            {
                let ghost before = r@;
                let e = (v[i].0.clone(), v[i].1.clone());
                let ghost ev = (e.0@, e.1@);
                r.push(e);
                i = i + 1;
                assert(pair_views(r@) =~= pair_views(before).push(ev));
                assert(pair_views(v@).take(i as int) =~= pair_views(v@).take(i - 1).push(ev));
            }
            assert(pair_views(v@).take(i as int) =~= pair_views(v@));
        },
        None => {
            assert(pair_views(r@) =~= nbrs(edges, k@));
        },
    }
    r
}

/// The subnets of `k` (a copy).
/// The networks of the addresses `mine` (those that have one).
fn networks_of(facts: &StrMap<AddrFacts>, mine: &Vec<String>) -> (r: Vec<String>)
    requires
        facts.wf(),
    ensures
        forall|n: Seq<char>| #[trigger] crate::types::strs(r@).contains(n) <==> exists|o: Seq<char>|
            #[trigger] crate::types::strs(mine@).contains(o) && network(*facts, o) == Some(n),
{
    let mut out: Vec<String> = Vec::new();
    let mut i: usize = 0;
    while i < mine.len()
        invariant
            i <= mine@.len(),
            facts.wf(),
            forall|n: Seq<char>| #[trigger] crate::types::strs(out@).contains(n) <==> exists|j: int|
                0 <= j < i && network(*facts, mine@[j]@) == Some(n),
        decreases mine@.len() - i,
    {
        let ghost before = crate::types::strs(out@);
        match network_of(facts, mine[i].as_str()) {
            Some(n) => {
                let ghost nv = n@;
                out.push(n);
                proof {
                    let after = crate::types::strs(out@);
                    assert(after =~= before.push(nv));
                    assert forall|m: Seq<char>| #[trigger] after.contains(m) <==> exists|j: int|
                        0 <= j < i + 1 && network(*facts, mine@[j]@) == Some(m) by {
                        if after.contains(m) {
                            let k = choose|k: int| 0 <= k < after.len() && after[k] == m;
                            if k < before.len() {
                                assert(before[k] == m);
                                assert(before.contains(m));
                            } else {
                                assert(network(*facts, mine@[i as int]@) == Some(m));
                            }
                        }
                        if exists|j: int| 0 <= j < i + 1 && network(*facts, mine@[j]@) == Some(m) {
                            let j = choose|j: int| 0 <= j < i + 1 && network(*facts, mine@[j]@) == Some(m);
                            if j < i {
                                assert(before.contains(m));
                                let k = choose|k: int| 0 <= k < before.len() && before[k] == m;
                                assert(after[k] == m);
                            } else {
                                assert(after[before.len() as int] == m);
                            }
                        }
                    }
                }
            },
            None => {
                proof {
                    assert forall|m: Seq<char>| #[trigger] before.contains(m) <==> exists|j: int|
                        0 <= j < i + 1 && network(*facts, mine@[j]@) == Some(m) by {
                        if exists|j: int| 0 <= j < i + 1 && network(*facts, mine@[j]@) == Some(m) {
                            let j = choose|j: int| 0 <= j < i + 1 && network(*facts, mine@[j]@) == Some(m);
                            assert(j < i);
                        }
                    }
                }
            },
        }
        i = i + 1;
    }
    proof {
        assert forall|n: Seq<char>| #[trigger] crate::types::strs(out@).contains(n) <==> exists|o: Seq<char>|
            #[trigger] crate::types::strs(mine@).contains(o) && network(*facts, o) == Some(n) by {
            if crate::types::strs(out@).contains(n) {
                let j = choose|j: int| 0 <= j < i && network(*facts, mine@[j]@) == Some(n);
                assert(crate::types::strs(mine@)[j] == mine@[j]@);
                assert(crate::types::strs(mine@).contains(mine@[j]@));
            }
            if exists|o: Seq<char>| #[trigger] crate::types::strs(mine@).contains(o) && network(*facts, o) == Some(n) {
                let o = choose|o: Seq<char>| #[trigger] crate::types::strs(mine@).contains(o) && network(*facts, o) == Some(n);
                let j = choose|j: int| 0 <= j < crate::types::strs(mine@).len() && crate::types::strs(mine@)[j] == o;
                assert(mine@[j]@ == o);
                assert(0 <= j < i && network(*facts, mine@[j]@) == Some(n));
            }
        }
    }
    out
}

fn subnets(sub: &StrMap<Vec<String>>, k: &str, Ghost(subs): Ghost<Seq<(Seq<char>, Seq<char>)>>) -> (r: Vec<String>)
    requires
        sub_match(*sub, subs),
    ensures
        crate::types::strs(r@).to_set() == subnets_of(subs, k@),
{
    match sub.get(k) {
        Some(v) => crate::container::copy_strs(v.as_slice()),
        None => {
            let r: Vec<String> = Vec::new();
            assert(crate::types::strs(r@).to_set() =~= Set::<Seq<char>>::empty());
            r
        },
    }
}

/// The search so far: `vis` holds `x` first, then the queued nodes in
/// order; each queued node is reached from `x` and carries the gateway of
/// one of `x`'s neighbours.
pub open spec fn frontier_ok(edges: Seq<(Seq<char>, Seq<char>, Seq<char>)>, x: Seq<char>, vis: Seq<Seq<char>>,
    q: Seq<(Seq<char>, Seq<char>)>) -> bool {
    &&& vis.no_duplicates()
    &&& vis.len() == q.len() + 1
    &&& vis[0] == x
    &&& forall|k: int| 0 <= k < q.len() ==> vis[k + 1] == (#[trigger] q[k]).0
    &&& forall|k: int| 0 <= k < q.len() ==> reaches(edges, x, (#[trigger] q[k]).0)
    &&& forall|k: int| 0 <= k < q.len() ==> is_gateway(edges, x, (#[trigger] q[k]).1)
}

/// Visit `(node, hop)`: mark `node` and queue it.
fn enqueue(visited: &mut Vec<String>, queue: &mut Vec<(String, String)>, node: String, hop: String,
    Ghost(edges): Ghost<Seq<(Seq<char>, Seq<char>, Seq<char>)>>, Ghost(x): Ghost<Seq<char>>)
    requires
        frontier_ok(edges, x, crate::types::strs(old(visited)@), pair_views(old(queue)@)),
        !crate::types::strs(old(visited)@).contains(node@),
        reaches(edges, x, node@),
        is_gateway(edges, x, hop@),
    ensures
        crate::types::strs(final(visited)@) == crate::types::strs(old(visited)@).push(node@),
        pair_views(final(queue)@) == pair_views(old(queue)@).push((node@, hop@)),
        frontier_ok(edges, x, crate::types::strs(final(visited)@), pair_views(final(queue)@)),
{
    let ghost v0 = crate::types::strs(visited@);
    let ghost q0 = pair_views(queue@);
    let ghost nv = node@;
    let ghost hv = hop@;
    visited.push(node.clone());
    queue.push((node, hop));
    let ghost v1 = crate::types::strs(visited@);
    let ghost q1 = pair_views(queue@);
    assert(v1 =~= v0.push(nv));
    assert(q1 =~= q0.push((nv, hv)));
    assert(v1.no_duplicates()) by {
        assert forall|a: int, b: int| 0 <= a < b < v1.len() implies v1[a] != v1[b] by {
            if b == v1.len() - 1 {
                assert(v0[a] == v1[a]);
                assert(v0.contains(v1[a]));
            } else {
                assert(v0[a] == v1[a] && v0[b] == v1[b]);
            }
        }
    }
    assert forall|k: int| 0 <= k < q1.len() implies v1[k + 1] == (#[trigger] q1[k]).0 by {
        if k < q0.len() {
            assert(q1[k] == q0[k]);
            assert(v0[k + 1] == q0[k].0);
        }
    }
    assert forall|k: int| 0 <= k < q1.len() implies reaches(edges, x, (#[trigger] q1[k]).0)
        && is_gateway(edges, x, q1[k].1) by {
        if k < q0.len() {
            assert(q1[k] == q0[k]);
        }
    }
}

/// The routes of router `x`, found by a breadth-first search of the
/// family's graph from `x`: each wanted subnet of each node reached gets a
/// route via the gateway of the neighbour of `x` through which the search
/// first reached that node (the first route to a network stays).
fn router_routes(t: &Topology, facts: &StrMap<AddrFacts>, x: &str, adj: &StrMap<Vec<(String, String)>>,
    sub: &StrMap<Vec<String>>, Ghost(edges): Ghost<Seq<(Seq<char>, Seq<char>, Seq<char>)>>,
    Ghost(subs): Ghost<Seq<(Seq<char>, Seq<char>)>>) -> (r: StrMap<RouteConfig>)
    requires
        t.wf(),
        facts.wf(),
        adj_match(*adj, edges),
        sub_match(*sub, subs),
        t.nodes.view().contains_key(x@),
    ensures
        r.wf(),
        router_routes_ok(*t, *facts, edges, subs, x@, r.view()),
{
    proof { t.nodes.lemma_view(); }
    let node = t.nodes.get(x).unwrap();
    assert(node.wf());
    let existing = &node.routes;
    let my_subs = subnets(sub, x, Ghost(subs));
    let my_nets = networks_of(facts, &my_subs);
    let ghost xv = x@;
    proof {
        assert forall|n: Seq<char>| #[trigger] crate::types::strs(my_nets@).contains(n)
            <==> own_network(*facts, subs, xv, n) by {
            if crate::types::strs(my_nets@).contains(n) {
                let o = choose|o: Seq<char>| #[trigger] crate::types::strs(my_subs@).contains(o) && network(*facts, o) == Some(n);
                assert(crate::types::strs(my_subs@).to_set().contains(o));
                assert(subnets_of(subs, xv).contains(o));
            }
            if own_network(*facts, subs, xv, n) {
                let o = choose|o: Seq<char>| #[trigger] subnets_of(subs, xv).contains(o) && network(*facts, o) == Some(n);
                assert(crate::types::strs(my_subs@).to_set().contains(o));
                assert(crate::types::strs(my_subs@).contains(o));
            }
        }
    }
    let ghost universe = edges.map_values(|e: (Seq<char>, Seq<char>, Seq<char>)| e.1).push(xv);
    let mut visited: Vec<String> = Vec::new();
    visited.push(owned(x));
    let mut queue: Vec<(String, String)> = Vec::new();
    proof {
        let v = crate::types::strs(visited@);
        assert(v =~= seq![xv]);
        assert(pair_views(queue@) =~= Seq::<(Seq<char>, Seq<char>)>::empty());
        assert(universe[universe.len() - 1] == xv);
        assert(universe.contains(v[0]));
    }
    let around = neighbours(adj, x, Ghost(edges));
    let ghost mut lv: Seq<int> = Seq::empty();
    let mut i: usize = 0;
    while i < around.len()
        invariant
            i <= around@.len(),
            universe == edges.map_values(|e: (Seq<char>, Seq<char>, Seq<char>)| e.1).push(xv),
            pair_views(around@) == nbrs(edges, xv),
            frontier_ok(edges, xv, crate::types::strs(visited@), pair_views(queue@)),
            levels_ok(edges, xv, pair_views(queue@), lv),
            forall|k: int| 0 <= k < lv.len() ==> #[trigger] lv[k] == 1,
            forall|i2: int| 0 <= i2 < i ==> crate::types::strs(visited@).contains(#[trigger] nbrs(edges, xv)[i2].0),
            forall|k: int| 0 <= k < visited@.len() ==> universe.contains(#[trigger] crate::types::strs(visited@)[k]),
            (crate::types::strs(visited@), pair_views(queue@))
                == offer(nbrs(edges, xv), i as int, None, seq![xv], Seq::<(Seq<char>, Seq<char>)>::empty()),
        decreases around@.len() - i,
    {
        let n = &around[i].0;
        let g = &around[i].1;
        assert(nbrs(edges, xv)[i as int] == (n@, g@));
        assert(nbrs(edges, xv)[i as int].0 == n@);
        assert(nbrs(edges, xv)[i as int].1 == g@);
        let ghost v0 = crate::types::strs(visited@);
        let ghost qs0 = pair_views(queue@);
        if !crate::process::holds(&visited, n.as_str()) {
            proof {
                lemma_reach_nbr(edges, xv, n@);
                lemma_nbr_from_edge(edges, xv, i as int);
            }
            let ghost q0 = pair_views(queue@);
            let ghost lv0 = lv;
            proof {
                let v0 = crate::types::strs(visited@);
                assert(v0[0] == xv);
                assert(n@ != xv);
                assert(adjacent(edges, xv, n@));
                lemma_within_self(edges, xv);
                lemma_within_next(edges, xv, xv, n@, 0);
                if within(edges, xv, n@, 0) {
                    lemma_within_zero(edges, xv, n@, 0);
                }
                assert(at_distance(edges, xv, n@, 1));
                lemma_within_self(edges, n@);
                assert(within(edges, nbrs(edges, xv)[i as int].0, n@, 0));
                assert(hop_ok(edges, xv, n@, g@, 1));
            }
            enqueue(&mut visited, &mut queue, n.clone(), g.clone(), Ghost(edges), Ghost(xv));
            proof {
                lv = lv.push(1int);
                let q1 = pair_views(queue@);
                assert forall|k: int| 0 <= k < q1.len() implies #[trigger] lv[k] >= 1 && at_distance(edges, xv, q1[k].0, lv[k])
                    && hop_ok(edges, xv, q1[k].0, q1[k].1, lv[k]) by {
                    if k < q0.len() {
                        assert(q1[k] == q0[k]);
                        assert(lv[k] == lv0[k]);
                    } else {
                        assert(q1[k] == (n@, g@));
                    }
                }
                assert forall|a: int, b: int| 0 <= a < b < q1.len() implies #[trigger] lv[a] <= #[trigger] lv[b] by {
                    assert(lv[a] == 1 && lv[b] == 1);
                }
                let j = choose|j: int| 0 <= j < edges.len() && #[trigger] edges[j].1 == nbrs(edges, xv)[i as int].0;
                assert(universe[j] == edges[j].1);
            }
        }
        let ghost v1 = crate::types::strs(visited@);
        assert((crate::types::strs(visited@), pair_views(queue@))
            == offer(nbrs(edges, xv), i + 1, None, seq![xv], Seq::<(Seq<char>, Seq<char>)>::empty()));
        assert forall|i2: int| 0 <= i2 < i + 1 implies v1.contains(#[trigger] nbrs(edges, xv)[i2].0) by {
            if i2 < i {
                let w = choose|w: int| 0 <= w < v0.len() && v0[w] == nbrs(edges, xv)[i2].0;
                assert(v1[w] == v0[w]);
            } else if v0.contains(n@) {
                let w = choose|w: int| 0 <= w < v0.len() && v0[w] == n@;
                assert(v1[w] == v0[w]);
            } else {
                assert(v1[v1.len() - 1] == n@);
            }
        }
        assert forall|k: int| 0 <= k < visited@.len() implies universe.contains(#[trigger] v1[k]) by {
            if k < v0.len() {
                assert(v1[k] == v0[k]);
            } else {
                assert(v1[k] == n@);
            }
        }
        i = i + 1;
    }
    proof {
        let v = crate::types::strs(visited@);
        assert(v[0] == xv);
        assert forall|z: Seq<char>, m: int| #[trigger] within(edges, xv, z, m) && m <= 1 implies v.contains(z) by {
            if m <= 0 {
                lemma_within_zero(edges, xv, z, m);
                assert(v[0] == z);
            } else if within(edges, xv, z, 0) {
                lemma_within_zero(edges, xv, z, 0);
                assert(v[0] == z);
            } else {
                assert(m == 1);
                let w = lemma_within_split(edges, xv, z, 1);
                assert(within(edges, xv, w, 0) && adjacent(edges, w, z));
                lemma_within_zero(edges, xv, w, 0);
                assert(w == xv);
                let i2 = choose|i2: int| 0 <= i2 < nbrs(edges, w).len() && #[trigger] nbrs(edges, w)[i2].0 == z;
                assert(i2 < around@.len());
                assert(v.contains(nbrs(edges, xv)[i2].0));
            }
        }
    }
    let mut r: StrMap<RouteConfig> = StrMap::new();
    let mut head: usize = 0;
    while head < queue.len()
        invariant
            t.wf(),
            facts.wf(),
            adj_match(*adj, edges),
            sub_match(*sub, subs),
            existing.wf(),
            *existing == t.nodes.view()[xv].routes,
            crate::types::strs(my_subs@).to_set() == subnets_of(subs, xv),
            forall|n: Seq<char>| #[trigger] crate::types::strs(my_nets@).contains(n)
                <==> own_network(*facts, subs, xv, n),
            head <= queue@.len(),
            universe == edges.map_values(|e: (Seq<char>, Seq<char>, Seq<char>)| e.1).push(xv),
            frontier_ok(edges, xv, crate::types::strs(visited@), pair_views(queue@)),
            levels_ok(edges, xv, pair_views(queue@), lv),
            head < queue@.len() ==> forall|k: int| head <= k < lv.len() ==> #[trigger] lv[k] <= lv[head as int] + 1,
            head < queue@.len() ==> forall|z: Seq<char>, m: int| #[trigger] within(edges, xv, z, m) && m <= lv[head as int]
                ==> crate::types::strs(visited@).contains(z),
            expanded(edges, xv, crate::types::strs(visited@)),
            forall|k: int| 0 <= k < head ==> expanded(edges, (#[trigger] pair_views(queue@)[k]).0, crate::types::strs(visited@)),
            forall|k: int| 0 <= k < visited@.len() ==> universe.contains(#[trigger] crate::types::strs(visited@)[k]),
            r.wf(),
            routes_sound(*t, *facts, edges, subs, xv, r.view()),
            forall|k: int| 0 <= k < head ==> routes_cover(*t, *facts, subs, xv, r.view(), (#[trigger] pair_views(queue@)[k]).0),
            (crate::types::strs(visited@), pair_views(queue@)) == search_state(edges, xv, head as nat),
            forall|d: Seq<char>| #[trigger] r.view().contains_key(d) ==> exists|h: int| h < head
                && first_holder_route(*t, *facts, subs, xv, pair_views(queue@), h, d, r.view()[d]),
        decreases universe.len() - head,
    {
        proof {
            crate::process::lemma_no_dup_subset_len(crate::types::strs(visited@), universe);
        }
        let cur = queue[head].0.clone();
        let hop = queue[head].1.clone();
        let ghost q = pair_views(queue@);
        assert(q[head as int] == (cur@, hop@));
        assert(reaches(edges, xv, cur@));
        assert(is_gateway(edges, xv, hop@));
        let ghost level: int = lv[head as int];
        assert(level >= 1 && at_distance(edges, xv, cur@, level) && hop_ok(edges, xv, cur@, hop@, level));
        assert(first_hop(edges, xv, cur@, hop@));
        assert(cur@ != xv) by {
            let v = crate::types::strs(visited@);
            assert(v[head + 1] == q[head as int].0);
            assert(v[0] == xv);
        }
        // routes to the subnets of `cur`
        let cs = subnets(sub, cur.as_str(), Ghost(subs));
        let ghost r0 = r.view();
        proof {
            let v = crate::types::strs(visited@);
            let q2 = pair_views(queue@);
            assert forall|y2: Seq<char>, s2: Seq<char>, mm: int|
                #![trigger within(edges, xv, y2, mm), subnets_of(subs, y2).contains(s2)]
                0 <= mm && within(edges, xv, y2, mm) && mm < level && subnets_of(subs, y2).contains(s2)
                    && wanted(*t, *facts, subs, xv, s2)
                implies r0.contains_key(network(*facts, s2)->0) by {
                assert(v.contains(y2));
                let iw = choose|iw: int| 0 <= iw < v.len() && v[iw] == y2;
                if iw == 0 {
                    assert(v[0] == xv);
                    assert(false);
                } else {
                    let kq = iw - 1;
                    assert(q2[kq].0 == y2);
                    assert(lv[kq] >= 1 && at_distance(edges, xv, q2[kq].0, lv[kq]));
                    lemma_dist_le(edges, xv, y2, lv[kq], mm);
                    if kq >= head {
                        assert(lv[head as int] <= lv[kq]);
                        assert(false);
                    }
                    assert(routes_cover(*t, *facts, subs, xv, r0, q2[kq].0));
                }
            }
        }
        proof {
            let q2 = pair_views(queue@);
            assert forall|h2: int, d: Seq<char>| 0 <= h2 < head && #[trigger] holds_wanted(*t, *facts, subs, xv, q2[h2].0, d)
                implies r0.contains_key(d) by {
                let s2 = choose|s2: Seq<char>| #[trigger] subnets_of(subs, q2[h2].0).contains(s2)
                    && wanted(*t, *facts, subs, xv, s2) && network(*facts, s2) == Some(d);
                assert(routes_cover(*t, *facts, subs, xv, r0, q2[h2].0));
            }
        }
        let mut m: usize = 0;
        while m < cs.len()
            invariant
                q == pair_views(queue@),
                head < q.len(),
                q[head as int] == (cur@, hop@),
                forall|h2: int, d: Seq<char>| 0 <= h2 < head && #[trigger] holds_wanted(*t, *facts, subs, xv, q[h2].0, d)
                    ==> r0.contains_key(d),
                forall|d: Seq<char>| #[trigger] r.view().contains_key(d) ==> exists|h: int| h <= head
                    && first_holder_route(*t, *facts, subs, xv, q, h, d, r.view()[d]),
                m <= cs@.len(),
                facts.wf(),
                existing.wf(),
                *existing == t.nodes.view()[xv].routes,
                crate::types::strs(my_subs@).to_set() == subnets_of(subs, xv),
                forall|n: Seq<char>| #[trigger] crate::types::strs(my_nets@).contains(n)
                    <==> own_network(*facts, subs, xv, n),
                crate::types::strs(cs@).to_set() == subnets_of(subs, cur@),
                reaches(edges, xv, cur@),
                cur@ != xv,
                is_gateway(edges, xv, hop@),
                first_hop(edges, xv, cur@, hop@),
                at_distance(edges, xv, cur@, level),
                forall|y2: Seq<char>, s2: Seq<char>, mm: int|
                    #![trigger within(edges, xv, y2, mm), subnets_of(subs, y2).contains(s2)]
                    0 <= mm && within(edges, xv, y2, mm) && mm < level && subnets_of(subs, y2).contains(s2)
                        && wanted(*t, *facts, subs, xv, s2)
                    ==> r0.contains_key(network(*facts, s2)->0),
                r.wf(),
                routes_sound(*t, *facts, edges, subs, xv, r.view()),
                forall|d: Seq<char>| r0.contains_key(d) ==> #[trigger] r.view().contains_key(d),
                forall|m2: int| 0 <= m2 < m && wanted(*t, *facts, subs, xv, #[trigger] crate::types::strs(cs@)[m2])
                    ==> r.view().contains_key(network(*facts, crate::types::strs(cs@)[m2])->0),
            decreases cs@.len() - m,
        {
            let s = &cs[m];
            let ghost sv = s@;
            assert(crate::types::strs(cs@)[m as int] == sv);
            assert(subnets_of(subs, cur@).contains(sv)) by {
                assert(crate::types::strs(cs@).contains(sv));
            }
            let direct = crate::process::holds(&my_subs, s.as_str());
            assert(direct == subnets_of(subs, xv).contains(sv));
            if !direct && !existing.contains_key(s.as_str()) {
                match network_of(facts, s.as_str()) {
                    Some(net) => {
                        let own = crate::process::holds(&my_nets, net.as_str());
                        if !own && !existing.contains_key(net.as_str()) && !r.contains_key(net.as_str()) {
                            assert(wanted(*t, *facts, subs, xv, sv));
                            let ghost nv = net@;
                            let ghost rb = r.view();
                            let cfg = RouteConfig { via: Some(hop.clone()), dev: None, metric: None };
                            assert(nearest_holder(*t, *facts, edges, subs, xv, cur@, nv)) by {
                                assert forall|y2: Seq<char>, s2: Seq<char>, mm: int|
                                    #![trigger within(edges, xv, y2, mm), subnets_of(subs, y2).contains(s2)]
                                    0 <= mm && within(edges, xv, y2, mm) && subnets_of(subs, y2).contains(s2)
                                        && wanted(*t, *facts, subs, xv, s2) && network(*facts, s2) == Some(nv)
                                    implies level <= mm by {
                                    if mm < level {
                                        assert(r0.contains_key(nv));
                                        assert(r.view().contains_key(nv));
                                    }
                                }
                            }
                            assert(route_source(*t, *facts, edges, subs, xv, cur@, sv, nv, cfg));
                            assert(first_holder_route(*t, *facts, subs, xv, q, head as int, nv, cfg)) by {
                                assert(holds_wanted(*t, *facts, subs, xv, q[head as int].0, nv));
                                assert forall|h2: int| 0 <= h2 < head implies !holds_wanted(*t, *facts, subs, xv, (#[trigger] q[h2]).0, nv) by {
                                    if holds_wanted(*t, *facts, subs, xv, q[h2].0, nv) {
                                        assert(r0.contains_key(nv));
                                        assert(r.view().contains_key(nv));
                                    }
                                }
                            }
                            r.insert(net, cfg);
                            assert forall|d: Seq<char>| #[trigger] r.view().contains_key(d) implies exists|h: int| h <= head
                                && first_holder_route(*t, *facts, subs, xv, q, h, d, r.view()[d]) by {
                                if d == nv {
                                    assert(first_holder_route(*t, *facts, subs, xv, q, head as int, d, r.view()[d]));
                                } else {
                                    assert(rb.contains_key(d));
                                    assert(r.view()[d] == rb[d]);
                                }
                            }
                            assert forall|d: Seq<char>| #[trigger] r.view().contains_key(d) implies exists|y: Seq<char>, s2: Seq<char>|
                                #[trigger] route_source(*t, *facts, edges, subs, xv, y, s2, d, r.view()[d]) by {
                                if d == nv {
                                    assert(route_source(*t, *facts, edges, subs, xv, cur@, sv, d, r.view()[d]));
                                } else {
                                    assert(rb.contains_key(d));
                                    assert(r.view()[d] == rb[d]);
                                }
                            }
                        }
                    },
                    None => {},
                }
            }
            m = m + 1;
        }
        proof {
            assert forall|s: Seq<char>| #[trigger] subnets_of(subs, cur@).contains(s) && wanted(*t, *facts, subs, xv, s)
                implies r.view().contains_key(network(*facts, s)->0) by {
                assert(crate::types::strs(cs@).to_set().contains(s));
                let m2 = choose|m2: int| 0 <= m2 < crate::types::strs(cs@).len() && crate::types::strs(cs@)[m2] == s;
            }
        }
        // queue the unvisited neighbours of `cur`
        let next = neighbours(adj, cur.as_str(), Ghost(edges));
        let ghost vis_start = crate::types::strs(visited@);
        let mut k: usize = 0;
        while k < next.len()
            invariant
                k <= next@.len(),
                universe == edges.map_values(|e: (Seq<char>, Seq<char>, Seq<char>)| e.1).push(xv),
                pair_views(next@) == nbrs(edges, cur@),
                reaches(edges, xv, cur@),
                is_gateway(edges, xv, hop@),
                head < queue@.len(),
                pair_views(queue@)[head as int].0 == cur@,
                frontier_ok(edges, xv, crate::types::strs(visited@), pair_views(queue@)),
                crate::types::strs(visited@).len() >= vis_start.len(),
                crate::types::strs(visited@).take(vis_start.len() as int) == vis_start,
                forall|k2: int| 0 <= k2 < k ==> crate::types::strs(visited@).contains(#[trigger] nbrs(edges, cur@)[k2].0),
                forall|k3: int| 0 <= k3 < visited@.len() ==> universe.contains(#[trigger] crate::types::strs(visited@)[k3]),
                levels_ok(edges, xv, pair_views(queue@), lv),
                lv[head as int] == level,
                at_distance(edges, xv, cur@, level),
                hop_ok(edges, xv, cur@, hop@, level),
                pair_views(queue@)[head as int].1 == hop@,
                forall|k4: int| head <= k4 < lv.len() ==> #[trigger] lv[k4] <= level + 1,
                forall|z: Seq<char>, m: int| #[trigger] within(edges, xv, z, m) && m <= level
                    ==> crate::types::strs(visited@).contains(z),
                (crate::types::strs(visited@), pair_views(queue@)) == offer(nbrs(edges, cur@), k as int, Some(hop@), vis_start, q),
                pair_views(queue@).len() >= q.len(),
                forall|h: int| 0 <= h < q.len() ==> pair_views(queue@)[h] == q[h],
            decreases next@.len() - k,
        {
            let nn = &next[k].0;
            assert(nbrs(edges, cur@)[k as int].0 == nn@);
            let ghost v0 = crate::types::strs(visited@);
            let ghost q0 = pair_views(queue@);
            if !crate::process::holds(&visited, nn.as_str()) {
                let ghost lv0 = lv;
                proof {
                    assert(adjacent(edges, cur@, nn@));
                    lemma_reach_step(edges, xv, cur@, nn@);
                    lemma_nbr_from_edge(edges, cur@, k as int);
                    lemma_within_next(edges, xv, cur@, nn@, level);
                    assert(!within(edges, xv, nn@, level));
                    assert(at_distance(edges, xv, nn@, level + 1));
                    let hi = choose|hi: int| 0 <= hi < nbrs(edges, xv).len() && #[trigger] nbrs(edges, xv)[hi].1 == hop@
                        && within(edges, nbrs(edges, xv)[hi].0, cur@, level - 1);
                    lemma_within_next(edges, nbrs(edges, xv)[hi].0, cur@, nn@, level - 1);
                    assert(within(edges, nbrs(edges, xv)[hi].0, nn@, level));
                    assert(hop_ok(edges, xv, nn@, hop@, level + 1));
                }
                enqueue(&mut visited, &mut queue, nn.clone(), hop.clone(), Ghost(edges), Ghost(xv));
                proof {
                    lv = lv.push(level + 1);
                    let q1 = pair_views(queue@);
                    assert forall|k5: int| 0 <= k5 < q1.len() implies #[trigger] lv[k5] >= 1 && at_distance(edges, xv, q1[k5].0, lv[k5])
                        && hop_ok(edges, xv, q1[k5].0, q1[k5].1, lv[k5]) by {
                        if k5 < q0.len() {
                            assert(q1[k5] == q0[k5]);
                            assert(lv[k5] == lv0[k5]);
                        } else {
                            assert(q1[k5] == (nn@, hop@));
                        }
                    }
                    assert forall|a: int, b: int| 0 <= a < b < q1.len() implies #[trigger] lv[a] <= #[trigger] lv[b] by {
                        if b < q0.len() {
                            assert(lv[a] == lv0[a] && lv[b] == lv0[b]);
                        } else if a >= head {
                            assert(lv[a] == lv0[a]);
                        } else {
                            assert(lv[a] == lv0[a]);
                            assert(lv0[a] <= lv0[head as int]);
                        }
                    }
                    assert forall|k4: int| head <= k4 < lv.len() implies #[trigger] lv[k4] <= level + 1 by {
                        if k4 < lv0.len() {
                            assert(lv[k4] == lv0[k4]);
                        }
                    }
                    assert(lv[head as int] == lv0[head as int]);
                    let v1 = crate::types::strs(visited@);
                    assert forall|z: Seq<char>, m: int| #[trigger] within(edges, xv, z, m) && m <= level implies v1.contains(z) by {
                        let w = choose|w: int| 0 <= w < v0.len() && v0[w] == z;
                        assert(v1[w] == v0[w]);
                    }
                    assert(q1[head as int] == q0[head as int]);
                    let j = choose|j: int| 0 <= j < edges.len() && #[trigger] edges[j].1 == nbrs(edges, cur@)[k as int].0;
                    assert(universe[j] == edges[j].1);
                    assert(pair_views(queue@)[head as int] == q0[head as int]);
                }
            }
            let ghost v1 = crate::types::strs(visited@);
            assert((crate::types::strs(visited@), pair_views(queue@))
                == offer(nbrs(edges, cur@), k + 1, Some(hop@), vis_start, q));
            assert forall|h: int| 0 <= h < q.len() implies pair_views(queue@)[h] == q[h] by {
                assert(q0[h] == q[h]);
                if pair_views(queue@) != q0 {
                    assert(pair_views(queue@)[h] == q0[h]);
                }
            }
            assert(v1.take(vis_start.len() as int) =~= vis_start) by {
                assert(v0.take(vis_start.len() as int) == vis_start);
            }
            assert forall|k2: int| 0 <= k2 < k + 1 implies v1.contains(#[trigger] nbrs(edges, cur@)[k2].0) by {
                if k2 < k {
                    let w = choose|w: int| 0 <= w < v0.len() && v0[w] == nbrs(edges, cur@)[k2].0;
                    assert(v1[w] == v0[w]);
                } else if v0.contains(nn@) {
                    let w = choose|w: int| 0 <= w < v0.len() && v0[w] == nn@;
                    assert(v1[w] == v0[w]);
                } else {
                    assert(v1[v1.len() - 1] == nn@);
                }
            }
            assert forall|k3: int| 0 <= k3 < visited@.len() implies universe.contains(#[trigger] v1[k3]) by {
                if k3 < v0.len() {
                    assert(v1[k3] == v0[k3]);
                } else {
                    assert(v1[k3] == nn@);
                }
            }
            k = k + 1;
        }
        proof {
            let v1 = crate::types::strs(visited@);
            let q1 = pair_views(queue@);
            assert((v1, q1) == search_state(edges, xv, (head + 1) as nat));
            assert forall|d: Seq<char>| #[trigger] r.view().contains_key(d) implies exists|h: int| h < head + 1
                && first_holder_route(*t, *facts, subs, xv, q1, h, d, r.view()[d]) by {
                let h = choose|h: int| h <= head && first_holder_route(*t, *facts, subs, xv, q, h, d, r.view()[d]);
                assert(q1[h] == q[h]);
                assert forall|h2: int| 0 <= h2 < h implies !holds_wanted(*t, *facts, subs, xv, (#[trigger] q1[h2]).0, d) by {
                    assert(q1[h2] == q[h2]);
                    assert(!holds_wanted(*t, *facts, subs, xv, q[h2].0, d));
                }
                assert(first_holder_route(*t, *facts, subs, xv, q1, h, d, r.view()[d]));
            }
            // what was expanded stays expanded as the visited set grows
            assert forall|a: Seq<char>| expanded(edges, a, vis_start) implies expanded(edges, a, v1) by {
                assert forall|i2: int| 0 <= i2 < nbrs(edges, a).len() implies v1.contains(#[trigger] nbrs(edges, a)[i2].0) by {
                    let w = choose|w: int| 0 <= w < vis_start.len() && vis_start[w] == nbrs(edges, a)[i2].0;
                    assert(v1.take(vis_start.len() as int)[w] == vis_start[w]);
                }
            }
            assert forall|k2: int| 0 <= k2 < head + 1 implies expanded(edges, (#[trigger] q1[k2]).0, v1) by {
                if k2 < head {
                    assert(q1[k2].0 == q[k2].0) by {
                        assert(v1[k2 + 1] == q1[k2].0);
                        assert(vis_start[k2 + 1] == q[k2].0);
                        assert(v1.take(vis_start.len() as int)[k2 + 1] == vis_start[k2 + 1]);
                    }
                    assert(expanded(edges, q[k2].0, vis_start));
                } else {
                    assert(q1[k2].0 == cur@);
                }
            }
            assert forall|k2: int| 0 <= k2 < head + 1 implies routes_cover(*t, *facts, subs, xv, r.view(), (#[trigger] q1[k2]).0) by {
                if k2 < head {
                    assert(q1[k2].0 == q[k2].0) by {
                        assert(v1[k2 + 1] == q1[k2].0);
                        assert(vis_start[k2 + 1] == q[k2].0);
                        assert(v1.take(vis_start.len() as int)[k2 + 1] == vis_start[k2 + 1]);
                    }
                    assert(routes_cover(*t, *facts, subs, xv, r0, q[k2].0));
                } else {
                    assert(q1[k2].0 == cur@);
                }
            }
            if head + 1 < q1.len() {
                let l2 = lv[head + 1];
                assert(lv[head as int] <= l2);
                assert forall|k4: int| head + 1 <= k4 < lv.len() implies #[trigger] lv[k4] <= l2 + 1 by {
                    assert(lv[k4] <= level + 1);
                }
                assert forall|z: Seq<char>, m: int| #[trigger] within(edges, xv, z, m) && m <= l2 implies v1.contains(z) by {
                    if m <= level {
                    } else {
                        // m == level + 1
                        assert(m == level + 1);
                        if within(edges, xv, z, level) {
                        } else {
                                                        let w = lemma_within_split(edges, xv, z, m);
                            assert(within(edges, xv, w, level));
                            assert(v1.contains(w));
                            let iw = choose|iw: int| 0 <= iw < v1.len() && v1[iw] == w;
                            let i3 = choose|i3: int| 0 <= i3 < nbrs(edges, w).len() && #[trigger] nbrs(edges, w)[i3].0 == z;
                            if iw == 0 {
                                assert(v1[0] == xv);
                                assert(w == xv);
                                assert(expanded(edges, xv, v1));
                                assert(v1.contains(nbrs(edges, w)[i3].0));
                            } else {
                                let kq = iw - 1;
                                assert(q1[kq].0 == w);
                                assert(at_distance(edges, xv, q1[kq].0, lv[kq]));
                                lemma_dist_le(edges, xv, w, lv[kq], level);
                                if kq > head {
                                    assert(lv[head + 1] <= lv[kq]);
                                    assert(false);
                                }
                                assert(expanded(edges, q1[kq].0, v1));
                                assert(v1.contains(nbrs(edges, w)[i3].0));
                            }
                        }
                    }
                }
            }
        }
        head = head + 1;
    }
    proof {
        let v = crate::types::strs(visited@);
        let q = pair_views(queue@);
        assert forall|a: Seq<char>| v.contains(a) implies #[trigger] expanded(edges, a, v) by {
            let w = choose|w: int| 0 <= w < v.len() && v[w] == a;
            if w > 0 {
                assert(v[w] == q[w - 1].0);
            }
        }
        assert(search_final(edges, xv, q));
        assert(routes_first(*t, *facts, subs, xv, q, r.view()));
        assert forall|y: Seq<char>| #[trigger] reaches(edges, xv, y) && y != xv implies routes_cover(*t, *facts, subs, xv, r.view(), y) by {
            let p = choose|p: Seq<Seq<char>>| #[trigger] is_walk(edges, p) && p[0] == xv && p.last() == y;
            assert(v.contains(p[0])) by { assert(v[0] == xv); }
            lemma_closed_reach(edges, v, p);
            let w = choose|w: int| 0 <= w < v.len() && v[w] == y;
            assert(w > 0);
            assert(v[w] == q[w - 1].0);
        }
    }
    r
}

// ─── The routes of a family ────────────────────────────────────────

/// The routes the family gives node `x` in `m`: none for a node without
/// neighbours; for a host, the default route via its gateway unless it
/// declares one; for a router, the routes of the search.
pub open spec fn node_routes_ok(t: Topology, facts: StrMap<AddrFacts>, v6: bool, x: Seq<char>,
    m: StrMap<StrMap<RouteConfig>>) -> bool {
    let edges = family_edges(facts, t, v6);
    let subs = family_subnets(facts, t, v6);
    let ns = nbrs(edges, x);
    match host_gateway(t, v6, ns, x) {
        Some(g) => if has_default(facts, t.nodes.view()[x].routes, v6) {
            !m.view().contains_key(x)
        } else {
            &&& m.view().contains_key(x)
            &&& m.view()[x].view().dom() == set![default_key(v6)]
            &&& via_only(m.view()[x].view()[default_key(v6)], g)
        },
        None => if ns.len() == 0 {
            !m.view().contains_key(x)
        } else {
            &&& router_routes_ok(t, facts, edges, subs, x,
                if m.view().contains_key(x) { m.view()[x].view() } else { Map::empty() })
            &&& m.view().contains_key(x) ==> m.view()[x].wf()
        },
    }
}

/// The routes of a family: per node of the topology, as `node_routes_ok`.
pub open spec fn family_routes_ok(t: Topology, facts: StrMap<AddrFacts>, v6: bool, m: StrMap<StrMap<RouteConfig>>) -> bool {
    &&& m.wf()
    &&& forall|x: Seq<char>| #[trigger] m.view().contains_key(x) ==> t.nodes.view().contains_key(x) && m.view()[x].wf()
    &&& forall|x: Seq<char>| #[trigger] t.nodes.view().contains_key(x) ==> node_routes_ok(t, facts, v6, x, m)
}

fn forward_key_text(v6: bool) -> (s: &'static str)
    ensures
        s@ == forward_key(v6),
{
    if v6 { "net.ipv6.conf.all.forwarding" } else { "net.ipv4.ip_forward" }
}

fn default_key_text(v6: bool) -> (s: &'static str)
    ensures
        s@ == default_key(v6),
{
    if v6 { "::/0" } else { "default" }
}

fn forwards_exec(t: &Topology, v6: bool, n: &str) -> (b: bool)
    requires
        t.wf(),
    ensures
        b == forwards(*t, v6, n@),
{
    proof { t.nodes.lemma_view(); }
    match t.nodes.get(n) {
        Some(node) => {
            assert(node.wf());
            match node.sysctls.get(forward_key_text(v6)) {
                Some(v) => str_eq(v.as_str(), "1"),
                None => false,
            }
        },
        None => false,
    }
}

fn has_default_exec(facts: &StrMap<AddrFacts>, existing: &StrMap<RouteConfig>, v6: bool) -> (b: bool)
    requires
        facts.wf(),
        existing.wf(),
    ensures
        b == has_default(*facts, *existing, v6),
{
    proof {
        existing.lemma_view();
        reveal_strlit("::/0");
        reveal_strlit("0.0.0.0/0");
        reveal_strlit("default");
    }
    let mut i: usize = 0;
    while i < existing.len()
        invariant
            i <= existing.keys().len(),
            facts.wf(),
            existing.keys().len() == existing.vals().len(),
            "::/0"@.len() == 4,
            "0.0.0.0/0"@.len() == 9,
            "default"@.len() == 7,
            forall|j: int| 0 <= j < i ==> !#[trigger] default_entry(*facts, existing.keys()[j], existing.vals()[j], v6),
        decreases existing.keys().len() - i,
    {
        let dest = existing.key_at(i);
        let cfg = existing.value_at(i);
        let hit = if str_eq(dest.as_str(), "::/0") {
            v6
        } else if str_eq(dest.as_str(), "0.0.0.0/0") {
            !v6
        } else if str_eq(dest.as_str(), "default") {
            match &cfg.via {
                Some(g) => match family_of(facts, g.as_str()) {
                    Some(is6) => is6 == v6,
                    None => !v6,
                },
                None => !v6,
            }
        } else {
            false
        };
        assert(hit == default_entry(*facts, existing.keys()[i as int], existing.vals()[i as int], v6));
        if hit {
            return true;
        }
        i = i + 1;
    }
    false
}

fn first_forwarder_exec(t: &Topology, v6: bool, ns: &Vec<(String, String)>) -> (g: String)
    requires
        t.wf(),
        ns@.len() > 0,
    ensures
        g@ == first_forwarder(*t, v6, pair_views(ns@), 0),
{
    let ghost nv = pair_views(ns@);
    let mut i: usize = 0;
    while i < ns.len()
        invariant
            i <= ns@.len(),
            ns@.len() > 0,
            t.wf(),
            nv == pair_views(ns@),
            first_forwarder(*t, v6, nv, 0) == first_forwarder(*t, v6, nv, i as int),
        decreases ns@.len() - i,
    {
        if forwards_exec(t, v6, ns[i].0.as_str()) {
            return ns[i].1.clone();
        }
        i = i + 1;
    }
    ns[0].1.clone()
}

fn single_neighbour_exec(ns: &Vec<(String, String)>) -> (b: bool)
    requires
        ns@.len() > 0,
    ensures
        b == single_neighbour(pair_views(ns@)),
{
    if ns.len() == 1 {
        return true;
    }
    let ghost nv = pair_views(ns@);
    let mut i: usize = 0;
    while i < ns.len()
        invariant
            i <= ns@.len(),
            ns@.len() > 1,
            nv == pair_views(ns@),
            forall|j: int| 0 <= j < i ==> #[trigger] nv[j].0 == nv[0].0,
        decreases ns@.len() - i,
    {
        if !str_eq(ns[i].0.as_str(), ns[0].0.as_str()) {
            assert(nv[i as int].0 != nv[0].0);
            return false;
        }
        i = i + 1;
    }
    true
}

/// Routes for one family (`v6`): per node, in name order.
pub fn auto_routes_for_family(topology: &Topology, facts: &StrMap<AddrFacts>, v6: bool) -> (m: StrMap<StrMap<RouteConfig>>)
    requires
        topology.wf(),
        facts.wf(),
    ensures
        family_routes_ok(*topology, *facts, v6, m),
{
    let ghost edges = family_edges(*facts, *topology, v6);
    let ghost subs = family_subnets(*facts, *topology, v6);
    let (adj, sub) = family_graph(topology, facts, v6);
    proof { topology.nodes.lemma_view(); }
    let mut m: StrMap<StrMap<RouteConfig>> = StrMap::new();
    let mut i: usize = 0;
    while i < topology.nodes.len()
        invariant
            i <= topology.nodes.keys().len(),
            topology.wf(),
            facts.wf(),
            edges == family_edges(*facts, *topology, v6),
            subs == family_subnets(*facts, *topology, v6),
            adj_match(adj, edges),
            sub_match(sub, subs),
            m.wf(),
            forall|x: Seq<char>| #[trigger] m.view().contains_key(x) ==> m.view()[x].wf()
                && exists|j: int| 0 <= j < i && topology.nodes.keys()[j] == x,
            forall|j: int| 0 <= j < i ==> node_routes_ok(*topology, *facts, v6, #[trigger] topology.nodes.keys()[j], m),
        decreases topology.nodes.keys().len() - i,
    {
        proof { topology.nodes.lemma_view(); crate::text::lemma_lex_order(); }
        let x = topology.nodes.key_at(i);
        let node = topology.nodes.value_at(i);
        let ghost xv = x@;
        assert(topology.nodes.view()[xv] == *node);
        let ghost m0 = m;
        assert(!m0.view().contains_key(xv)) by {
            if m0.view().contains_key(xv) {
                let j = choose|j: int| 0 <= j < i && topology.nodes.keys()[j] == xv;
                assert(crate::text::lex_lt(topology.nodes.keys()[j], topology.nodes.keys()[i as int]));
            }
        }
        let ns = neighbours(&adj, x.as_str(), Ghost(edges));
        let ghost nsv = pair_views(ns@);
        if ns.len() > 0 {
            let gateway: Option<String> = if single_neighbour_exec(&ns) {
                Some(ns[0].1.clone())
            } else if !forwards_exec(topology, v6, x.as_str()) {
                Some(first_forwarder_exec(topology, v6, &ns))
            } else {
                None
            };
            match gateway {
                Some(g) => {
                    assert(host_gateway(*topology, v6, nsv, xv) == Some(g@));
                    assert(node.wf());
                    if !has_default_exec(facts, &node.routes, v6) {
                        let mut one: StrMap<RouteConfig> = StrMap::new();
                        one.insert(owned(default_key_text(v6)), RouteConfig { via: Some(g), dev: None, metric: None });
                        assert(one.view().dom() =~= set![default_key(v6)]);
                        m.insert(owned(x.as_str()), one);
                    }
                },
                None => {
                    assert(host_gateway(*topology, v6, nsv, xv) is None);
                    let r = router_routes(topology, facts, x.as_str(), &adj, &sub, Ghost(edges), Ghost(subs));
                    if r.len() > 0 {
                        m.insert(owned(x.as_str()), r);
                    } else {
                        proof {
                            r.lemma_view();
                            assert(r.view() =~= Map::<Seq<char>, RouteConfig>::empty());
                        }
                    }
                },
            }
        }
        proof {
            assert forall|x2: Seq<char>| #[trigger] m.view().contains_key(x2) implies m.view()[x2].wf()
                && exists|j: int| 0 <= j < i + 1 && topology.nodes.keys()[j] == x2 by {
                if x2 != xv {
                    assert(m0.view().contains_key(x2));
                }
            }
            assert forall|j: int| 0 <= j < i + 1 implies node_routes_ok(*topology, *facts, v6, #[trigger] topology.nodes.keys()[j], m) by {
                if j < i {
                    let xj = topology.nodes.keys()[j];
                    assert(crate::text::lex_lt(xj, xv));
                    assert(xj != xv);
                    assert(node_routes_ok(*topology, *facts, v6, xj, m0));
                    assert(m.view().contains_key(xj) == m0.view().contains_key(xj));
                    if m0.view().contains_key(xj) {
                        assert(m.view()[xj] == m0.view()[xj]);
                    }
                }
            }
        }
        i = i + 1;
    }
    proof {
        assert forall|x: Seq<char>| #[trigger] m.view().contains_key(x) implies topology.nodes.view().contains_key(x)
            && m.view()[x].wf() by {
            let j = choose|j: int| 0 <= j < i && topology.nodes.keys()[j] == x;
        }
        assert forall|x: Seq<char>| #[trigger] topology.nodes.view().contains_key(x) implies node_routes_ok(*topology, *facts, v6, x, m) by {
            let j = choose|j: int| 0 <= j < topology.nodes.keys().len() && topology.nodes.keys()[j] == x;
        }
    }
    m
}

/// The elements of a sequence with one more pushed.
proof fn lemma_push_set(s: Seq<Seq<char>>, x: Seq<char>)
    ensures
        s.push(x).to_set() == s.to_set().insert(x),
{
    assert forall|y: Seq<char>| s.push(x).to_set().contains(y) <==> s.to_set().insert(x).contains(y) by {
        if s.push(x).to_set().contains(y) {
            let w = choose|w: int| 0 <= w < s.push(x).len() && s.push(x)[w] == y;
            if w < s.len() {
                assert(s[w] == y);
            }
        }
        if s.to_set().contains(y) {
            let w = choose|w: int| 0 <= w < s.len() && s[w] == y;
            assert(s.push(x)[w] == y);
        }
        if y == x {
            assert(s.push(x)[s.len() as int] == y);
        }
    }
    assert(s.push(x).to_set() =~= s.to_set().insert(x));
}

/// The routes of node `x` in `m`, none where it has no entry.
pub open spec fn routes_or_empty(m: StrMap<StrMap<RouteConfig>>, x: Seq<char>) -> Map<Seq<char>, RouteConfig> {
    if m.view().contains_key(x) { m.view()[x].view() } else { Map::empty() }
}

/// `res` holds, per node, the routes of `a` with those of `b` added (a
/// route of `b` replacing one of `a` to the same destination).
pub open spec fn merged(res: StrMap<StrMap<RouteConfig>>, a: StrMap<StrMap<RouteConfig>>, b: StrMap<StrMap<RouteConfig>>) -> bool {
    &&& res.wf()
    &&& res.view().dom() == a.view().dom().union(b.view().dom())
    &&& forall|x: Seq<char>| #[trigger] res.view().contains_key(x) ==> res.view()[x].wf()
        && res.view()[x].view() == routes_or_empty(a, x).union_prefer_right(routes_or_empty(b, x))
}

/// Auto-generate static routes from the topology graph, per address
/// family: the IPv4 routes, with the IPv6 routes added per node.
pub fn auto_generate_routes(topology: &Topology, facts: &StrMap<AddrFacts>) -> (res: StrMap<StrMap<RouteConfig>>)
    requires
        topology.wf(),
        facts.wf(),
    ensures
        exists|a: StrMap<StrMap<RouteConfig>>, b: StrMap<StrMap<RouteConfig>>|
            #[trigger] family_routes_ok(*topology, *facts, false, a)
            && #[trigger] family_routes_ok(*topology, *facts, true, b) && merged(res, a, b),
{
    let v4 = auto_routes_for_family(topology, facts, false);
    let v6 = auto_routes_for_family(topology, facts, true);
    let ghost a = v4;
    let mut res = v4;
    proof { res.lemma_view(); v6.lemma_view(); }
    let mut i: usize = 0;
    while i < v6.len()
        invariant
            i <= v6.keys().len(),
            v6.wf(),
            family_routes_ok(*topology, *facts, false, a),
            family_routes_ok(*topology, *facts, true, v6),
            res.wf(),
            res.view().dom() == a.view().dom().union(v6.keys().take(i as int).to_set()),
            forall|x: Seq<char>| #[trigger] res.view().contains_key(x) ==> res.view()[x].wf()
                && res.view()[x].view() == routes_or_empty(a, x).union_prefer_right(
                    if v6.keys().take(i as int).contains(x) { routes_or_empty(v6, x) } else { Map::empty() }),
        decreases v6.keys().len() - i,
    {
        proof { v6.lemma_view(); crate::text::lemma_lex_order(); }
        let node = v6.key_at(i);
        let r6 = v6.value_at(i);
        let ghost xv = node@;
        assert(v6.view().contains_key(xv) && v6.view()[xv] == *r6);
        assert(r6.wf());
        let mut base = match res.get(node.as_str()) {
            Some(r) => r.copy(),
            None => StrMap::new(),
        };
        let ghost b0 = base.view();
        proof { r6.lemma_view(); }
        let mut k: usize = 0;
        while k < r6.len()
            invariant
                k <= r6.keys().len(),
                r6.wf(),
                r6.keys().len() == r6.vals().len(),
                base.wf(),
                base.view() == b0.union_prefer_right(Map::new(|d: Seq<char>| r6.keys().take(k as int).contains(d),
                    |d: Seq<char>| r6.view()[d])),
            decreases r6.keys().len() - k,
        {
            proof { r6.lemma_view(); }
            let d = r6.key_at(k);
            let c = r6.value_at(k);
            assert(r6.view()[d@] == *c);
            let ghost prev = r6.keys().take(k as int);
            let ghost mprev = Map::new(|d2: Seq<char>| prev.contains(d2), |d2: Seq<char>| r6.view()[d2]);
            let cc = c.copy();
            assert(cc == r6.view()[d@]);
            base.insert(d.clone(), cc);
            k = k + 1;
            proof {
                let nxt = r6.keys().take(k as int);
                assert(nxt =~= prev.push(d@));
                lemma_push_set(prev, d@);
                let mnext = Map::new(|d2: Seq<char>| nxt.contains(d2), |d2: Seq<char>| r6.view()[d2]);
                assert(mnext =~= mprev.insert(d@, r6.view()[d@])) by {
                    assert forall|d2: Seq<char>| nxt.contains(d2) <==> prev.contains(d2) || d2 == d@ by {
                        assert(nxt.to_set().contains(d2) == nxt.contains(d2));
                        assert(prev.to_set().contains(d2) == prev.contains(d2));
                    }
                }
            }
            assert(base.view() =~= b0.union_prefer_right(Map::new(|d: Seq<char>| r6.keys().take(k as int).contains(d),
                |d: Seq<char>| r6.view()[d])));
        }
        proof {
            r6.lemma_view();
            assert(r6.keys().take(k as int) =~= r6.keys());
            assert(Map::new(|d: Seq<char>| r6.keys().take(k as int).contains(d), |d: Seq<char>| r6.view()[d]) =~= r6.view());
        }
        let ghost res0 = res.view();
        let ghost base_g = base;
        res.insert(node.clone(), base);
        assert(res.view()[xv] == base_g);
        i = i + 1;
        proof {
            let pre = v6.keys().take(i - 1);
            assert(!pre.contains(xv)) by {
                if pre.contains(xv) {
                    let w = choose|w: int| 0 <= w < pre.len() && pre[w] == xv;
                    assert(crate::text::lex_lt(v6.keys()[w], v6.keys()[i - 1]));
                }
            }
            assert(v6.keys().take(i as int) =~= pre.push(xv));
            lemma_push_set(pre, xv);
            assert(res.view().dom() =~= a.view().dom().union(v6.keys().take(i as int).to_set()));
            assert forall|x: Seq<char>| #[trigger] res.view().contains_key(x) implies res.view()[x].wf()
                && res.view()[x].view() == routes_or_empty(a, x).union_prefer_right(
                    if v6.keys().take(i as int).contains(x) { routes_or_empty(v6, x) } else { Map::empty() }) by {
                if x == xv {
                    if res0.contains_key(xv) {
                        assert(b0 == routes_or_empty(a, xv).union_prefer_right(Map::<Seq<char>, RouteConfig>::empty()));
                        assert(b0 =~= routes_or_empty(a, xv));
                    } else {
                        assert(!a.view().contains_key(xv));
                        assert(b0 =~= routes_or_empty(a, xv));
                    }
                    assert(routes_or_empty(v6, xv) == r6.view());
                    assert(v6.keys().take(i as int).contains(xv)) by {
                        assert(v6.keys().take(i as int)[i - 1] == xv);
                    }
                    assert(base_g.view() == b0.union_prefer_right(r6.view()));
                    assert(base_g.wf());
                } else {
                    assert(res0.contains_key(x));
                    assert(res.view()[x] == res0[x]);
                    let cur = v6.keys().take(i as int);
                    assert(cur.contains(x) == pre.contains(x)) by {
                        if cur.contains(x) {
                            let w = choose|w: int| 0 <= w < cur.len() && cur[w] == x;
                            assert(pre[w] == x);
                        }
                        if pre.contains(x) {
                            let w = choose|w: int| 0 <= w < pre.len() && pre[w] == x;
                            assert(cur[w] == x);
                        }
                    }
                }
            }
        }
    }
    proof {
        v6.lemma_view();
        assert(v6.keys().take(i as int) =~= v6.keys());
        assert(res.view().dom() =~= a.view().dom().union(v6.view().dom()));
        assert(family_routes_ok(*topology, *facts, false, a) && family_routes_ok(*topology, *facts, true, v6) && merged(res, a, v6));
    }
    res
}

/// The routes to add for the lab's routing mode: none for `manual`, all
/// generated routes for `auto`, and for `frr` the generated routes of the
/// nodes other than the FRR routers (`routers`), which learn theirs from
/// their daemons.
pub fn auto_routes_for(topology: &Topology, facts: &StrMap<AddrFacts>, routers: &Vec<String>) -> (res: StrMap<StrMap<RouteConfig>>)
    requires
        topology.wf(),
        facts.wf(),
    ensures
        res.wf(),
        topology.lab.routing == RoutingMode::Manual ==> res.view().dom().len() == 0,
        topology.lab.routing != RoutingMode::Manual ==> exists|all: StrMap<StrMap<RouteConfig>>|
            #[trigger] all_routes(*topology, *facts, all) && (topology.lab.routing == RoutingMode::Auto ==> res.view() == all.view())
            && (topology.lab.routing == RoutingMode::Frr ==> same_routes(res, all,
                all.view().dom().difference(crate::types::strs(routers@).to_set()))),
{
    match topology.lab.routing {
        RoutingMode::Manual => {
            let r: StrMap<StrMap<RouteConfig>> = StrMap::new();
            assert(r.view().dom() =~= Set::<Seq<char>>::empty());
            r
        },
        RoutingMode::Auto => {
            let r = auto_generate_routes(topology, facts);
            assert(all_routes(*topology, *facts, r));
            r
        },
        RoutingMode::Frr => {
            let all = auto_generate_routes(topology, facts);
            assert(all_routes(*topology, *facts, all));
            let mut r: StrMap<StrMap<RouteConfig>> = StrMap::new();
            proof {
                all.lemma_view();
                assert(all.keys().take(0).to_set() =~= Set::<Seq<char>>::empty());
                assert(r.view().dom() =~= all.keys().take(0).to_set().difference(crate::types::strs(routers@).to_set()));
            }
            let mut i: usize = 0;
            while i < all.len()
                invariant
                    i <= all.keys().len(),
                    all.wf(),
                    r.wf(),
                    same_routes(r, all, all.keys().take(i as int).to_set().difference(crate::types::strs(routers@).to_set())),
                decreases all.keys().len() - i,
            {
                proof { all.lemma_view(); }
                let n = all.key_at(i);
                let routes = all.value_at(i);
                assert(all.view()[n@] == *routes);
                let ghost before = r.view();
                let ghost rs = crate::types::strs(routers@).to_set();
                let ghost kept0 = all.keys().take(i as int).to_set().difference(rs);
                let held = crate::process::holds(routers, n.as_str());
                if !held {
                    r.insert(n.clone(), routes.copy());
                }
                i = i + 1;
                proof {
                    let pre = all.keys().take(i - 1);
                    assert(all.keys().take(i as int) =~= pre.push(n@));
                    lemma_push_set(pre, n@);
                    let kept1 = all.keys().take(i as int).to_set().difference(rs);
                    if held {
                        assert(kept1 =~= kept0);
                    } else {
                        assert(kept1 =~= kept0.insert(n@));
                    }
                    assert(r.view().dom() =~= kept1);
                }
            }
            proof {
                all.lemma_view();
                assert(all.keys().take(i as int) =~= all.keys());
            }
            r
        },
    }
}

/// The generated routes of both families.
pub open spec fn all_routes(t: Topology, facts: StrMap<AddrFacts>, res: StrMap<StrMap<RouteConfig>>) -> bool {
    exists|a: StrMap<StrMap<RouteConfig>>, b: StrMap<StrMap<RouteConfig>>|
        #[trigger] family_routes_ok(t, facts, false, a) && #[trigger] family_routes_ok(t, facts, true, b) && merged(res, a, b)
}

/// `res` holds the routes of `all` for the nodes of `keep`, and no others.
pub open spec fn same_routes(res: StrMap<StrMap<RouteConfig>>, all: StrMap<StrMap<RouteConfig>>, keep: Set<Seq<char>>) -> bool {
    &&& res.view().dom() == keep
    &&& forall|x: Seq<char>| #[trigger] res.view().contains_key(x) ==> res.view()[x].view() == all.view()[x].view()
        && res.view()[x].wf() == all.view()[x].wf()
}


/// A node that declares a default route of the family (`0.0.0.0/0` for
/// IPv4, `::/0` for IPv6) gets no automatic default route: where it is no
/// router it gets no automatic route at all, and the only automatic routes
/// it can have are a router's search routes.
pub proof fn lemma_declared_default_kept(t: Topology, facts: StrMap<AddrFacts>, v6: bool, m: StrMap<StrMap<RouteConfig>>, x: Seq<char>)
    requires
        t.wf(),
        family_routes_ok(t, facts, v6, m),
        t.nodes.view().contains_key(x),
        t.nodes.view()[x].routes.view().contains_key(if v6 { "::/0"@ } else { "0.0.0.0/0"@ }),
    ensures
        has_default(facts, t.nodes.view()[x].routes, v6),
        host_gateway(t, v6, nbrs(family_edges(facts, t, v6), x), x) is Some ==> !m.view().contains_key(x),
        m.view().contains_key(x) ==> host_gateway(t, v6, nbrs(family_edges(facts, t, v6), x), x) is None,
{
    let rs = t.nodes.view()[x].routes;
    assert(t.nodes.view()[x].wf());
    rs.lemma_view();
    let d = if v6 { "::/0"@ } else { "0.0.0.0/0"@ };
    let i = choose|i: int| 0 <= i < rs.keys().len() && rs.keys()[i] == d;
    assert(default_entry(facts, rs.keys()[i], rs.vals()[i], v6));
    assert(node_routes_ok(t, facts, v6, x, m));
}

} // verus!
