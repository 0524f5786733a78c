//! Declarative WireGuard configuration of one node: a device per WireGuard
//! interface, with its private key, listen port and firewall mark, and a
//! peer for each interface of a peer node that lists this node back.
//!
//! Whether an address text is an IP address, and how it prints, is read
//! from an [`AddrFacts`] table that the caller fills by parsing the
//! addresses.
use vstd::prelude::*;
use crate::error::Error;
use crate::map::StrMap;
use crate::routes::AddrFacts;
use crate::text::{to_chars, find_char, take_chars, skip_chars, string_from_chars, before_first, after_first,
    lemma_first_pos, str_eq, push_str, owned};
use crate::types::{Topology, Node, Link, InterfaceConfig, WireguardConfig, strs, endpoint_parts, EndpointRef};
use crate::vrf::{ip_fact, ip_fact_of, parse_u8_spec, parse_u8};

verus! {

// ─── Addresses ──────────────────────────────────────────────────────

/// An `address/prefix` text read as a CIDR: the family (`true` for IPv6),
/// the address as it prints, and a prefix length that fits the family.
pub open spec fn cidr_fact(facts: StrMap<AddrFacts>, s: Seq<char>) -> Option<(bool, Seq<char>, u8)> {
    if !s.contains('/') {
        None
    } else {
        match ip_fact(facts, before_first(s, '/')) {
            Some((v6, shown)) => match parse_u8_spec(after_first(s, '/')) {
                Ok(p) => if p <= (if v6 { 128int } else { 32int }) { Some((v6, shown, p as u8)) } else { None },
                Err(_) => None,
            },
            None => None,
        }
    }
}

/// The CIDR that `s` denotes (see [`cidr_fact`]).
pub fn cidr_parts(s: &str, facts: &StrMap<AddrFacts>) -> (r: Option<(bool, String, u8)>)
    requires
        facts.wf(),
    ensures
        match cidr_fact(*facts, s@) {
            Some((v6, a, p)) => r matches Some((x, t, q)) && x == v6 && t@ == a && q == p,
            None => r is None,
        },
{
    let cs = to_chars(s);
    let slash = match find_char(cs.as_slice(), '/') {
        Some(k) => k,
        None => return None,
    };
    proof { lemma_first_pos(cs@, '/'); }
    assert(slash < cs.len());
    let addr = string_from_chars(take_chars(cs.as_slice(), slash).as_slice());
    let pfx = skip_chars(cs.as_slice(), slash + 1);
    let (v6, shown) = match ip_fact_of(facts, addr.as_str()) {
        Some(f) => f,
        None => return None,
    };
    match parse_u8(pfx.as_slice()) {
        Ok(p) => {
            let limit: u8 = if v6 { 128 } else { 32 };
            if p <= limit { Some((v6, shown, p)) } else { None }
        },
        Err(_) => None,
    }
}

// ─── Peer endpoints ─────────────────────────────────────────────────

/// The address that end `k` of a link gives `peer`: the link's address on
/// that end, where the end is on `peer` and the address parses.
pub open spec fn link_end_ip(l: Link, peer: Seq<char>, facts: StrMap<AddrFacts>, k: int) -> Option<(bool, Seq<char>)> {
    match l.addresses {
        Some(a) => match endpoint_parts(l.endpoints@[k]@) {
            Some((n, _)) => if n == peer {
                match cidr_fact(facts, a@[k]@) {
                    Some((v6, ip, _)) => Some((v6, ip)),
                    None => None,
                }
            } else {
                None
            },
            None => None,
        },
        None => None,
    }
}

/// The first address that the first `n` links give `peer`.
pub open spec fn links_ip(links: Seq<Link>, peer: Seq<char>, facts: StrMap<AddrFacts>, n: int) -> Option<(bool, Seq<char>)>
    decreases n,
{
    if n <= 0 {
        None
    } else {
        match links_ip(links, peer, facts, n - 1) {
            Some(x) => Some(x),
            None => match link_end_ip(links[n - 1], peer, facts, 0) {
                Some(x) => Some(x),
                None => link_end_ip(links[n - 1], peer, facts, 1),
            },
        }
    }
}

/// The first of the first `n` addresses that parses.
pub open spec fn addrs_ip(addrs: Seq<String>, facts: StrMap<AddrFacts>, n: int) -> Option<(bool, Seq<char>)>
    decreases n,
{
    if n <= 0 {
        None
    } else {
        match addrs_ip(addrs, facts, n - 1) {
            Some(x) => Some(x),
            None => match cidr_fact(facts, addrs[n - 1]@) {
                Some((v6, ip, _)) => Some((v6, ip)),
                None => None,
            },
        }
    }
}

/// The first address that parses among those of the first `n` interfaces,
/// in name order.
pub open spec fn ifaces_ip(ifaces: StrMap<InterfaceConfig>, facts: StrMap<AddrFacts>, n: int) -> Option<(bool, Seq<char>)>
    decreases n,
{
    if n <= 0 {
        None
    } else {
        match ifaces_ip(ifaces, facts, n - 1) {
            Some(x) => Some(x),
            None => {
                let a = ifaces.vals()[n - 1].addresses@;
                addrs_ip(a, facts, a.len() as int)
            },
        }
    }
}

/// A reachable address of node `peer`: the first link address on one of
/// its ends, else the first address of its interfaces.
pub open spec fn peer_endpoint(t: Topology, peer: Seq<char>, facts: StrMap<AddrFacts>) -> Option<(bool, Seq<char>)> {
    match links_ip(t.links@, peer, facts, t.links@.len() as int) {
        Some(x) => Some(x),
        None => if t.nodes.view().contains_key(peer) {
            let ifs = t.nodes.view()[peer].interfaces;
            ifaces_ip(ifs, facts, ifs.keys().len() as int)
        } else {
            None
        },
    }
}

fn link_end_ip_exec(l: &Link, peer: &str, facts: &StrMap<AddrFacts>, k: usize) -> (r: Option<(bool, String)>)
    requires
        facts.wf(),
        k < 2,
    ensures
        match link_end_ip(*l, peer@, *facts, k as int) {
            Some((v6, a)) => r matches Some((x, t)) && x == v6 && t@ == a,
            None => r is None,
        },
{
    match &l.addresses {
        Some(a) => match EndpointRef::parse(l.endpoints[k].as_str()) {
            Some(ep) => if str_eq(ep.node.as_str(), peer) {
                match cidr_parts(a[k].as_str(), facts) {
                    Some((v6, ip, _)) => Some((v6, ip)),
                    None => None,
                }
            } else {
                None
            },
            None => None,
        },
        None => None,
    }
}

fn addrs_ip_exec(addrs: &Vec<String>, facts: &StrMap<AddrFacts>) -> (r: Option<(bool, String)>)
    requires
        facts.wf(),
    ensures
        match addrs_ip(addrs@, *facts, addrs@.len() as int) {
            Some((v6, a)) => r matches Some((x, t)) && x == v6 && t@ == a,
            None => r is None,
        },
{
    let mut found: Option<(bool, String)> = None;
    let mut i: usize = 0;
    while i < addrs.len()
        invariant
            i <= addrs@.len(),
            facts.wf(),
            match addrs_ip(addrs@, *facts, i as int) {
                Some((v6, a)) => found matches Some((x, t)) && x == v6 && t@ == a,
                None => found is None,
            },
        decreases addrs@.len() - i,
    {
        if found.is_none() {
            match cidr_parts(addrs[i].as_str(), facts) {
                Some((v6, ip, _)) => { found = Some((v6, ip)); },
                None => {},
            }
        }
        i = i + 1;
    }
    found
}

/// A reachable address of node `peer_name` (see [`peer_endpoint`]).
pub fn find_peer_endpoint(topology: &Topology, facts: &StrMap<AddrFacts>, peer_name: &str) -> (r: Option<(bool, String)>)
    requires
        topology.wf(),
        facts.wf(),
    ensures
        match peer_endpoint(*topology, peer_name@, *facts) {
            Some((v6, a)) => r matches Some((x, t)) && x == v6 && t@ == a,
            None => r is None,
        },
{
    let mut found: Option<(bool, String)> = None;
    let mut i: usize = 0;
    while i < topology.links.len()
        invariant
            i <= topology.links@.len(),
            facts.wf(),
            match links_ip(topology.links@, peer_name@, *facts, i as int) {
                Some((v6, a)) => found matches Some((x, t)) && x == v6 && t@ == a,
                None => found is None,
            },
        decreases topology.links@.len() - i,
    {
        if found.is_none() {
            found = link_end_ip_exec(&topology.links[i], peer_name, facts, 0);
            if found.is_none() {
                found = link_end_ip_exec(&topology.links[i], peer_name, facts, 1);
            }
        }
        i = i + 1;
    }
    if found.is_some() {
        return found;
    }
    match topology.nodes.get(peer_name) {
        Some(node) => {
            proof {
                assert(topology.nodes.view().contains_key(peer_name@));
                assert(node.wf());
            }
            let ghost ifs = node.interfaces;
            let mut j: usize = 0;
            while j < node.interfaces.len()
                invariant
                    j <= ifs.keys().len(),
                    ifs == node.interfaces,
                    ifs.wf(),
                    facts.wf(),
                    match ifaces_ip(ifs, *facts, j as int) {
                        Some((v6, a)) => found matches Some((x, t)) && x == v6 && t@ == a,
                        None => found is None,
                    },
                decreases ifs.keys().len() - j,
            {
                if found.is_none() {
                    found = addrs_ip_exec(&node.interfaces.value_at(j).addresses, facts);
                }
                j = j + 1;
            }
            found
        },
        None => None,
    }
}

// ─── Devices and peers ──────────────────────────────────────────────

/// A network a peer may send from: family, address, prefix length.
#[derive(Debug, Clone)]
pub struct AllowedIp {
    pub v6: bool,
    pub addr: String,
    pub prefix: u8,
}

impl View for AllowedIp {
    type V = (bool, Seq<char>, u8);

    open spec fn view(&self) -> (bool, Seq<char>, u8) {
        (self.v6, self.addr@, self.prefix)
    }
}

/// Where a peer is reached: family, address, UDP port.
#[derive(Debug, Clone)]
pub struct WgEndpoint {
    pub v6: bool,
    pub addr: String,
    pub port: u16,
}

impl View for WgEndpoint {
    type V = (bool, Seq<char>, u16);

    open spec fn view(&self) -> (bool, Seq<char>, u16) {
        (self.v6, self.addr@, self.port)
    }
}

/// One peer of a WireGuard device.
#[derive(Debug, Clone)]
pub struct WgPeer {
    pub public_key: [u8; 32],
    pub endpoint: Option<WgEndpoint>,
    pub allowed_ips: Vec<AllowedIp>,
}

pub struct WgPeerView {
    pub public_key: Seq<u8>,
    pub endpoint: Option<(bool, Seq<char>, u16)>,
    pub allowed_ips: Seq<(bool, Seq<char>, u8)>,
}

/// The views of a sequence of allowed networks.
pub open spec fn allowed_views(v: Seq<AllowedIp>) -> Seq<(bool, Seq<char>, u8)> {
    v.map_values(|a: AllowedIp| a@)
}

impl View for WgPeer {
    type V = WgPeerView;

    open spec fn view(&self) -> WgPeerView {
        WgPeerView {
            public_key: self.public_key@,
            endpoint: match self.endpoint {
                Some(e) => Some(e@),
                None => None,
            },
            allowed_ips: allowed_views(self.allowed_ips@),
        }
    }
}

/// The views of a sequence of peers.
pub open spec fn peer_views(v: Seq<WgPeer>) -> Seq<WgPeerView> {
    v.map_values(|p: WgPeer| p@)
}

/// One WireGuard device (interface) to configure.
#[derive(Debug, Clone)]
pub struct WgDevice {
    pub ifname: String,
    pub private_key: [u8; 32],
    pub listen_port: Option<u16>,
    pub fwmark: Option<u32>,
    pub peers: Vec<WgPeer>,
}

pub struct WgDeviceView {
    pub ifname: Seq<char>,
    pub private_key: Seq<u8>,
    pub listen_port: Option<u16>,
    pub fwmark: Option<u32>,
    pub peers: Seq<WgPeerView>,
}

impl View for WgDevice {
    type V = WgDeviceView;

    open spec fn view(&self) -> WgDeviceView {
        WgDeviceView {
            ifname: self.ifname@,
            private_key: self.private_key@,
            listen_port: self.listen_port,
            fwmark: self.fwmark,
            peers: peer_views(self.peers@),
        }
    }
}

/// The views of a sequence of devices.
pub open spec fn device_views(v: Seq<WgDevice>) -> Seq<WgDeviceView> {
    v.map_values(|d: WgDevice| d@)
}

/// The WireGuard devices of one node.
#[derive(Debug, Clone)]
pub struct WgConfig {
    pub devices: Vec<WgDevice>,
}

impl View for WgConfig {
    type V = Seq<WgDeviceView>;

    open spec fn view(&self) -> Seq<WgDeviceView> {
        device_views(self.devices@)
    }
}

impl WgConfig {
    /// The devices, in interface name order.
    pub fn devices(&self) -> (r: &Vec<WgDevice>)
        ensures
            device_views(r@) == self@,
    {
        &self.devices
    }
}

/// Why a node's WireGuard configuration cannot be built: an inconsistency
/// of the key map (a deploy failure) or of the topology.
pub enum WgFailure {
    Internal(Seq<char>),
    Topology(Seq<char>),
}

/// `e` reports failure `f`.
pub open spec fn fails_as(e: Error, f: WgFailure) -> bool {
    match f {
        WgFailure::Internal(m) => e matches Error::DeployFailed(t) && t@ == m,
        WgFailure::Topology(m) => e matches Error::InvalidTopology(t) && t@ == m,
    }
}

/// The networks among the first `n` address texts that parse.
pub open spec fn allowed_upto(addrs: Seq<String>, facts: StrMap<AddrFacts>, n: int) -> Seq<(bool, Seq<char>, u8)>
    decreases n,
{
    if n <= 0 {
        Seq::empty()
    } else {
        let prev = allowed_upto(addrs, facts, n - 1);
        match cidr_fact(facts, addrs[n - 1]@) {
            Some(c) => prev.push(c),
            None => prev,
        }
    }
}

/// The peer that interface `pwg` of node `peer` becomes: its public key,
/// an endpoint where it listens and the node has a reachable address, and
/// its own addresses as allowed networks.
pub open spec fn peer_view(public_key: [u8; 32], pwg: WireguardConfig, t: Topology, peer: Seq<char>,
    facts: StrMap<AddrFacts>) -> WgPeerView {
    WgPeerView {
        public_key: public_key@,
        endpoint: match pwg.listen_port {
            Some(port) => match peer_endpoint(t, peer, facts) {
                Some((v6, a)) => Some((v6, a, port)),
                None => None,
            },
            None => None,
        },
        allowed_ips: allowed_upto(pwg.addresses@, facts, pwg.addresses@.len() as int),
    }
}

/// The peers that the first `n` interfaces of peer node `pn` (named `peer`)
/// give node `node`: those that list `node` among their peers.
pub open spec fn peer_ifaces_upto(node: Seq<char>, peer: Seq<char>, pn: Node, pkeys: StrMap<([u8; 32], [u8; 32])>,
    t: Topology, facts: StrMap<AddrFacts>, n: int) -> Result<Seq<WgPeerView>, WgFailure>
    decreases n,
{
    if n <= 0 {
        Ok(Seq::empty())
    } else {
        match peer_ifaces_upto(node, peer, pn, pkeys, t, facts, n - 1) {
            Err(f) => Err(f),
            Ok(ps) => {
                let pname = pn.wireguard.keys()[n - 1];
                let pwg = pn.wireguard.vals()[n - 1];
                if !strs(pwg.peers@).contains(node) {
                    Ok(ps)
                } else if !pkeys.view().contains_key(pname) {
                    Err(WgFailure::Internal("missing public key for '"@ + peer + "'."@ + pname))
                } else {
                    Ok(ps.push(peer_view(pkeys.view()[pname].1, pwg, t, peer, facts)))
                }
            },
        }
    }
}

/// The peers that peer node `peer`, named by interface `wg` of `node`,
/// gives.
pub open spec fn peers_of(node: Seq<char>, wg: Seq<char>, peer: Seq<char>, t: Topology,
    keys: StrMap<StrMap<([u8; 32], [u8; 32])>>, facts: StrMap<AddrFacts>) -> Result<Seq<WgPeerView>, WgFailure> {
    if !keys.view().contains_key(peer) {
        Err(WgFailure::Topology("WireGuard peer '"@ + peer + "' referenced by '"@ + node + "'."@ + wg
            + " has no WireGuard interfaces"@))
    } else if !t.nodes.view().contains_key(peer) {
        Err(WgFailure::Topology("WireGuard peer '"@ + peer + "' referenced by '"@ + node + "'."@ + wg
            + " is not a topology node"@))
    } else {
        let pn = t.nodes.view()[peer];
        peer_ifaces_upto(node, peer, pn, keys.view()[peer], t, facts, pn.wireguard.keys().len() as int)
    }
}

/// The peers of the first `n` peer nodes named by interface `wg` of `node`.
pub open spec fn peers_upto(node: Seq<char>, wg: Seq<char>, peers: Seq<String>, t: Topology,
    keys: StrMap<StrMap<([u8; 32], [u8; 32])>>, facts: StrMap<AddrFacts>, n: int) -> Result<Seq<WgPeerView>, WgFailure>
    decreases n,
{
    if n <= 0 {
        Ok(Seq::empty())
    } else {
        match peers_upto(node, wg, peers, t, keys, facts, n - 1) {
            Err(f) => Err(f),
            Ok(ps) => match peers_of(node, wg, peers[n - 1]@, t, keys, facts) {
                Err(f) => Err(f),
                Ok(qs) => Ok(ps + qs),
            },
        }
    }
}

/// The device of interface `wg` (configured by `cfg`) of `node`, whose own
/// keys are `own`.
pub open spec fn device_of(node: Seq<char>, wg: Seq<char>, cfg: WireguardConfig, own: StrMap<([u8; 32], [u8; 32])>,
    t: Topology, keys: StrMap<StrMap<([u8; 32], [u8; 32])>>, facts: StrMap<AddrFacts>) -> Result<WgDeviceView, WgFailure> {
    if !own.view().contains_key(wg) {
        Err(WgFailure::Internal("internal: no key for '"@ + node + "'."@ + wg))
    } else {
        match peers_upto(node, wg, cfg.peers@, t, keys, facts, cfg.peers@.len() as int) {
            Err(f) => Err(f),
            Ok(ps) => Ok(WgDeviceView {
                ifname: wg,
                private_key: own.view()[wg].0@,
                listen_port: cfg.listen_port,
                fwmark: cfg.fwmark,
                peers: ps,
            }),
        }
    }
}

/// The devices of the first `n` WireGuard interfaces of `node`.
pub open spec fn devices_upto(node: Seq<char>, wgs: StrMap<WireguardConfig>, own: StrMap<([u8; 32], [u8; 32])>,
    t: Topology, keys: StrMap<StrMap<([u8; 32], [u8; 32])>>, facts: StrMap<AddrFacts>, n: int)
    -> Result<Seq<WgDeviceView>, WgFailure>
    decreases n,
{
    if n <= 0 {
        Ok(Seq::empty())
    } else {
        match devices_upto(node, wgs, own, t, keys, facts, n - 1) {
            Err(f) => Err(f),
            Ok(ds) => match device_of(node, wgs.keys()[n - 1], wgs.vals()[n - 1], own, t, keys, facts) {
                Err(f) => Err(f),
                Ok(d) => Ok(ds.push(d)),
            },
        }
    }
}

/// The WireGuard configuration of node `name` (configured by `n`): a
/// device per interface, in name order, or the first failure.
pub open spec fn wg_plan(name: Seq<char>, n: Node, t: Topology, keys: StrMap<StrMap<([u8; 32], [u8; 32])>>,
    facts: StrMap<AddrFacts>) -> Result<Seq<WgDeviceView>, WgFailure> {
    if !keys.view().contains_key(name) {
        Err(WgFailure::Internal("internal: no key map for WireGuard node '"@ + name + "'"@))
    } else {
        devices_upto(name, n.wireguard, keys.view()[name], t, keys, facts, n.wireguard.keys().len() as int)
    }
}

proof fn lemma_peer_ifaces_fail(node: Seq<char>, peer: Seq<char>, pn: Node, pkeys: StrMap<([u8; 32], [u8; 32])>,
    t: Topology, facts: StrMap<AddrFacts>, i: int, n: int)
    requires
        0 <= i <= n,
        peer_ifaces_upto(node, peer, pn, pkeys, t, facts, i) is Err,
    ensures
        peer_ifaces_upto(node, peer, pn, pkeys, t, facts, n) == peer_ifaces_upto(node, peer, pn, pkeys, t, facts, i),
    decreases n - i,
{
    if i < n {
        lemma_peer_ifaces_fail(node, peer, pn, pkeys, t, facts, i, n - 1);
    }
}

proof fn lemma_peers_fail(node: Seq<char>, wg: Seq<char>, peers: Seq<String>, t: Topology,
    keys: StrMap<StrMap<([u8; 32], [u8; 32])>>, facts: StrMap<AddrFacts>, i: int, n: int)
    requires
        0 <= i <= n,
        peers_upto(node, wg, peers, t, keys, facts, i) is Err,
    ensures
        peers_upto(node, wg, peers, t, keys, facts, n) == peers_upto(node, wg, peers, t, keys, facts, i),
    decreases n - i,
{
    if i < n {
        lemma_peers_fail(node, wg, peers, t, keys, facts, i, n - 1);
    }
}

proof fn lemma_devices_fail(node: Seq<char>, wgs: StrMap<WireguardConfig>, own: StrMap<([u8; 32], [u8; 32])>,
    t: Topology, keys: StrMap<StrMap<([u8; 32], [u8; 32])>>, facts: StrMap<AddrFacts>, i: int, n: int)
    requires
        0 <= i <= n,
        devices_upto(node, wgs, own, t, keys, facts, i) is Err,
    ensures
        devices_upto(node, wgs, own, t, keys, facts, n) == devices_upto(node, wgs, own, t, keys, facts, i),
    decreases n - i,
{
    if i < n {
        lemma_devices_fail(node, wgs, own, t, keys, facts, i, n - 1);
    }
}

/// Whether `s` is among the names.
fn names_contain(v: &Vec<String>, s: &str) -> (b: bool)
    ensures
        b == strs(v@).contains(s@),
{
    let mut i: usize = 0;
    while i < v.len()
        invariant
            i <= v@.len(),
            forall|j: int| 0 <= j < i ==> v@[j]@ != s@,
        decreases v@.len() - i,
    {
        if str_eq(v[i].as_str(), s) {
            assert(strs(v@)[i as int] == s@);
            return true;
        }
        i = i + 1;
    }
    proof {
        if strs(v@).contains(s@) {
            let j = choose|j: int| 0 <= j < strs(v@).len() && strs(v@)[j] == s@;
            assert(v@[j]@ == s@);
        }
    }
    false
}

/// The networks among the address texts that parse.
fn allowed_ips_of(addrs: &Vec<String>, facts: &StrMap<AddrFacts>) -> (r: Vec<AllowedIp>)
    requires
        facts.wf(),
    ensures
        allowed_views(r@) == allowed_upto(addrs@, *facts, addrs@.len() as int),
{
    let mut out: Vec<AllowedIp> = Vec::new();
    let mut i: usize = 0;
    while i < addrs.len()
        invariant
            i <= addrs@.len(),
            facts.wf(),
            allowed_views(out@) == allowed_upto(addrs@, *facts, i as int),
        decreases addrs@.len() - i,
    {
        match cidr_parts(addrs[i].as_str(), facts) {
            Some((v6, addr, prefix)) => {
                let ghost before = out@;
                out.push(AllowedIp { v6, addr, prefix });
                assert(allowed_views(out@) =~= allowed_views(before).push(out@[before.len() as int]@));
            },
            None => {},
        }
        i = i + 1;
    }
    out
}

/// The peers that peer node `peer_name` gives node `node_name` (see
/// [`peer_ifaces_upto`]).
fn peer_entries(node_name: &str, peer_name: &str, peer_node: &Node, peer_keys: &StrMap<([u8; 32], [u8; 32])>,
    topology: &Topology, facts: &StrMap<AddrFacts>) -> (r: Result<Vec<WgPeer>, Error>)
    requires
        peer_node.wf(),
        peer_keys.wf(),
        topology.wf(),
        facts.wf(),
    ensures
        match peer_ifaces_upto(node_name@, peer_name@, *peer_node, *peer_keys, *topology, *facts,
            peer_node.wireguard.keys().len() as int) {
            Ok(ps) => r matches Ok(v) && peer_views(v@) == ps,
            Err(f) => r matches Err(e) && fails_as(e, f),
        },
{
    let ghost wgs = peer_node.wireguard;
    let mut out: Vec<WgPeer> = Vec::new();
    assert(peer_views(out@) =~= Seq::<WgPeerView>::empty());
    let mut i: usize = 0;
    while i < peer_node.wireguard.len()
        invariant
            i <= wgs.keys().len(),
            wgs == peer_node.wireguard,
            peer_keys.wf(),
            topology.wf(),
            facts.wf(),
            peer_ifaces_upto(node_name@, peer_name@, *peer_node, *peer_keys, *topology, *facts, i as int)
                == Ok::<Seq<WgPeerView>, WgFailure>(peer_views(out@)),
        decreases wgs.keys().len() - i,
    {
        let pname = peer_node.wireguard.key_at(i);
        let pwg = peer_node.wireguard.value_at(i);
        if names_contain(&pwg.peers, node_name) {
            let peer_pub = match peer_keys.get(pname.as_str()) {
                Some(k) => k.1,
                None => {
                    let mut m = String::new();
                    push_str(&mut m, "missing public key for '");
                    push_str(&mut m, peer_name);
                    push_str(&mut m, "'.");
                    push_str(&mut m, pname.as_str());
                    proof {
                        lemma_peer_ifaces_fail(node_name@, peer_name@, *peer_node, *peer_keys, *topology, *facts,
                            i + 1, wgs.keys().len() as int);
                    }
                    return Err(Error::DeployFailed(m));
                },
            };
            let endpoint = match pwg.listen_port {
                Some(port) => match find_peer_endpoint(topology, facts, peer_name) {
                    Some((v6, addr)) => Some(WgEndpoint { v6, addr, port }),
                    None => None,
                },
                None => None,
            };
            let allowed_ips = allowed_ips_of(&pwg.addresses, facts);
            let peer = WgPeer { public_key: peer_pub, endpoint, allowed_ips };
            assert(peer@ == peer_view(peer_keys.view()[pname@].1, *pwg, *topology, peer_name@, *facts));
            let ghost before = out@;
            out.push(peer);
            assert(peer_views(out@) =~= peer_views(before).push(peer@));
        }
        i = i + 1;
    }
    Ok(out)
}

/// The peers of interface `wg_name` of `node_name`, one peer node after
/// another (see [`peers_upto`]).
fn device_peers(node_name: &str, wg_name: &str, peers: &Vec<String>, topology: &Topology,
    public_keys: &StrMap<StrMap<([u8; 32], [u8; 32])>>, facts: &StrMap<AddrFacts>) -> (r: Result<Vec<WgPeer>, Error>)
    requires
        topology.wf(),
        public_keys.wf(),
        forall|n: Seq<char>| #[trigger] public_keys.view().contains_key(n) ==> public_keys.view()[n].wf(),
        facts.wf(),
    ensures
        match peers_upto(node_name@, wg_name@, peers@, *topology, *public_keys, *facts, peers@.len() as int) {
            Ok(ps) => r matches Ok(v) && peer_views(v@) == ps,
            Err(f) => r matches Err(e) && fails_as(e, f),
        },
{
    let mut out: Vec<WgPeer> = Vec::new();
    assert(peer_views(out@) =~= Seq::<WgPeerView>::empty());
    let mut i: usize = 0;
    while i < peers.len()
        invariant
            i <= peers@.len(),
            topology.wf(),
            public_keys.wf(),
            forall|n: Seq<char>| #[trigger] public_keys.view().contains_key(n) ==> public_keys.view()[n].wf(),
            facts.wf(),
            peers_upto(node_name@, wg_name@, peers@, *topology, *public_keys, *facts, i as int)
                == Ok::<Seq<WgPeerView>, WgFailure>(peer_views(out@)),
        decreases peers@.len() - i,
    {
        let peer_name = peers[i].as_str();
        let peer_keys = match public_keys.get(peer_name) {
            Some(k) => k,
            None => {
                let mut m = String::new();
                push_str(&mut m, "WireGuard peer '");
                push_str(&mut m, peer_name);
                push_str(&mut m, "' referenced by '");
                push_str(&mut m, node_name);
                push_str(&mut m, "'.");
                push_str(&mut m, wg_name);
                push_str(&mut m, " has no WireGuard interfaces");
                proof {
                    lemma_peers_fail(node_name@, wg_name@, peers@, *topology, *public_keys, *facts,
                        i + 1, peers@.len() as int);
                }
                return Err(Error::InvalidTopology(m));
            },
        };
        let peer_node = match topology.nodes.get(peer_name) {
            Some(n) => n,
            None => {
                let mut m = String::new();
                push_str(&mut m, "WireGuard peer '");
                push_str(&mut m, peer_name);
                push_str(&mut m, "' referenced by '");
                push_str(&mut m, node_name);
                push_str(&mut m, "'.");
                push_str(&mut m, wg_name);
                push_str(&mut m, " is not a topology node");
                proof {
                    lemma_peers_fail(node_name@, wg_name@, peers@, *topology, *public_keys, *facts,
                        i + 1, peers@.len() as int);
                }
                return Err(Error::InvalidTopology(m));
            },
        };
        proof {
            assert(topology.nodes.view().contains_key(peer_name@));
            assert(peer_node.wf());
        }
        match peer_entries(node_name, peer_name, peer_node, peer_keys, topology, facts) {
            Ok(mut qs) => {
                let ghost before = out@;
                let ghost added = qs@;
                out.append(&mut qs);
                assert(peer_views(out@) =~= peer_views(before) + peer_views(added));
            },
            Err(e) => {
                proof {
                    lemma_peers_fail(node_name@, wg_name@, peers@, *topology, *public_keys, *facts,
                        i + 1, peers@.len() as int);
                }
                return Err(e);
            },
        }
        i = i + 1;
    }
    Ok(out)
}

/// The declarative WireGuard configuration of node `node_name`: a device
/// per WireGuard interface, in name order, with its private key from the
/// key map, its listen port and firewall mark, and one peer for each
/// interface of each peer node that lists this node back (see
/// [`wg_plan`]).
///
/// Fails when the key map lacks this node or one of its interfaces, or a
/// peer node's interface, and when a peer node has no WireGuard interfaces
/// or is not a node of the topology.
pub fn topology_to_wireguard_config(node_name: &str, node: &Node, topology: &Topology,
    public_keys: &StrMap<StrMap<([u8; 32], [u8; 32])>>, facts: &StrMap<AddrFacts>) -> (r: Result<WgConfig, Error>)
    requires
        node.wf(),
        topology.wf(),
        public_keys.wf(),
        forall|n: Seq<char>| #[trigger] public_keys.view().contains_key(n) ==> public_keys.view()[n].wf(),
        facts.wf(),
    ensures
        match wg_plan(node_name@, *node, *topology, *public_keys, *facts) {
            Ok(ds) => r matches Ok(c) && c@ == ds,
            Err(f) => r matches Err(e) && fails_as(e, f),
        },
{
    let own_keys = match public_keys.get(node_name) {
        Some(k) => k,
        None => {
            let mut m = String::new();
            push_str(&mut m, "internal: no key map for WireGuard node '");
            push_str(&mut m, node_name);
            push_str(&mut m, "'");
            return Err(Error::DeployFailed(m));
        },
    };
    let ghost wgs = node.wireguard;
    let mut devices: Vec<WgDevice> = Vec::new();
    assert(device_views(devices@) =~= Seq::<WgDeviceView>::empty());
    let mut i: usize = 0;
    while i < node.wireguard.len()
        invariant
            i <= wgs.keys().len(),
            wgs == node.wireguard,
            topology.wf(),
            public_keys.wf(),
            forall|n: Seq<char>| #[trigger] public_keys.view().contains_key(n) ==> public_keys.view()[n].wf(),
            facts.wf(),
            public_keys.view().contains_key(node_name@),
            *own_keys == public_keys.view()[node_name@],
            own_keys.wf(),
            devices_upto(node_name@, wgs, *own_keys, *topology, *public_keys, *facts, i as int)
                == Ok::<Seq<WgDeviceView>, WgFailure>(device_views(devices@)),
        decreases wgs.keys().len() - i,
    {
        let wg_name = node.wireguard.key_at(i);
        let wg_config = node.wireguard.value_at(i);
        let private_key = match own_keys.get(wg_name.as_str()) {
            Some(k) => k.0,
            None => {
                let mut m = String::new();
                push_str(&mut m, "internal: no key for '");
                push_str(&mut m, node_name);
                push_str(&mut m, "'.");
                push_str(&mut m, wg_name.as_str());
                proof {
                    lemma_devices_fail(node_name@, wgs, *own_keys, *topology, *public_keys, *facts,
                        i + 1, wgs.keys().len() as int);
                }
                return Err(Error::DeployFailed(m));
            },
        };
        let peers = match device_peers(node_name, wg_name.as_str(), &wg_config.peers, topology, public_keys, facts) {
            Ok(ps) => ps,
            Err(e) => {
                proof {
                    lemma_devices_fail(node_name@, wgs, *own_keys, *topology, *public_keys, *facts,
                        i + 1, wgs.keys().len() as int);
                }
                return Err(e);
            },
        };
        let device = WgDevice {
            ifname: owned(wg_name.as_str()),
            private_key,
            listen_port: wg_config.listen_port,
            fwmark: wg_config.fwmark,
            peers,
        };
        let ghost before = devices@;
        devices.push(device);
        assert(device_views(devices@) =~= device_views(before).push(devices@[before.len() as int]@));
        i = i + 1;
    }
    Ok(WgConfig { devices })
}

proof fn lemma_devices_named(node: Seq<char>, wgs: StrMap<WireguardConfig>, own: StrMap<([u8; 32], [u8; 32])>,
    t: Topology, keys: StrMap<StrMap<([u8; 32], [u8; 32])>>, facts: StrMap<AddrFacts>, n: int)
    requires
        0 <= n,
        devices_upto(node, wgs, own, t, keys, facts, n) is Ok,
    ensures
        devices_upto(node, wgs, own, t, keys, facts, n)->Ok_0.len() == n,
        forall|i: int| 0 <= i < n ==> #[trigger] devices_upto(node, wgs, own, t, keys, facts, n)->Ok_0[i].ifname
            == wgs.keys()[i],
    decreases n,
{
    if n > 0 {
        lemma_devices_named(node, wgs, own, t, keys, facts, n - 1);
    }
}

/// A node's WireGuard configuration, where it can be built, has one device
/// per WireGuard interface, named after it, in interface name order.
pub proof fn lemma_device_per_interface(name: Seq<char>, n: Node, t: Topology,
    keys: StrMap<StrMap<([u8; 32], [u8; 32])>>, facts: StrMap<AddrFacts>)
    requires
        wg_plan(name, n, t, keys, facts) is Ok,
    ensures
        wg_plan(name, n, t, keys, facts)->Ok_0.len() == n.wireguard.keys().len(),
        forall|i: int| 0 <= i < n.wireguard.keys().len() ==> #[trigger] wg_plan(name, n, t, keys, facts)->Ok_0[i].ifname
            == n.wireguard.keys()[i],
{
    lemma_devices_named(name, n.wireguard, keys.view()[name], t, keys, facts, n.wireguard.keys().len() as int);
}

} // verus!
