//! The topology part of a deploy plan: namespaces and containers, hwsim
//! radios, the host-reachable management bridge, bridge networks,
//! point-to-point veths, host-side macvlan/ipvlan, link bring-up, sysctls
//! and DNS overlays, in the stage order they run in. The per-node stack,
//! traffic control and processes have planners of their own.
//!
//! Names that the lab's naming rules give (namespaces, the management
//! bridge and its peers, bridge and member peer names), each node's
//! effective sysctls, the number of hwsim radios and the parsed management
//! subnet reach the planner as a [`DeployNames`] value.
use vstd::prelude::*;
use vstd::arithmetic::power2::{pow2, lemma_pow2_pos};
use vstd::bits::{lemma_u64_pow2_no_overflow, lemma_u64_shl_is_mul};
use crate::container::{build_create_opts, opt_strs, pair_strs, CreateOpts, CreateOptsView};
use crate::error::Error;
use crate::map::{StrMap, sorted_of};
use crate::netaddr::{net_v4, network_v4, lemma_net_v4_block};
use crate::op::{Op, OpView, PortVlans, copy_vids};
use crate::plan::{views, rank_of};
use crate::text::{dec, push_str, push_dec, str_eq};
use crate::dns::{generate_hosts_entries, hosts_entries, topology_addrs, entry_views};
use crate::types::{
    Node, ostr, strs, copy_opt, endpoint_parts, EndpointRef, Topology, Network, PortConfig, WifiConfig, MacvlanConfig,
    IpvlanConfig, DnsMode,
};

verus! {

/// The parsed management subnet.
#[derive(Debug, Clone, Copy)]
pub struct CidrFacts {
    /// Whether the address is IPv6.
    pub v6: bool,
    /// The IPv4 address as a number (unused for IPv6).
    pub addr: u32,
    /// The prefix length.
    pub prefix: u8,
}

/// What a topology's naming rules and tables give the planner.
pub struct DeployNames {
    /// The network namespace of each node.
    pub namespaces: StrMap<String>,
    /// The host-side management bridge.
    pub mgmt_bridge: String,
    /// The host-side peer of each node's management veth, by node position.
    pub mgmt_peers: Vec<String>,
    /// The bridge of each network.
    pub bridges: StrMap<String>,
    /// The bridge-side peer of each network member, by member position.
    pub member_peers: StrMap<Vec<String>>,
    /// The sysctls each node gets, its profile's included.
    pub sysctls: StrMap<StrMap<String>>,
    /// The number of simulated radios to load.
    pub radios: u32,
    /// The parse of the lab's management subnet text.
    pub mgmt_cidr: Result<CidrFacts, Error>,
}

impl DeployNames {
    /// The tables name every node and network of `t`, with one peer name
    /// per node and per network member.
    pub open spec fn covers(&self, t: Topology) -> bool {
        &&& self.namespaces.wf()
        &&& self.bridges.wf()
        &&& self.member_peers.wf()
        &&& self.sysctls.wf()
        &&& self.mgmt_peers@.len() == t.nodes.keys().len()
        &&& forall|k: Seq<char>| #[trigger] t.nodes.view().contains_key(k) ==> {
            &&& self.namespaces.view().contains_key(k)
            &&& self.sysctls.view().contains_key(k)
            &&& self.sysctls.view()[k].wf()
        }
        &&& forall|k: Seq<char>| #[trigger] t.networks.view().contains_key(k) ==> {
            &&& self.bridges.view().contains_key(k)
            &&& self.member_peers.view().contains_key(k)
            &&& self.member_peers.view()[k]@.len() == t.networks.view()[k].members@.len()
        }
        &&& (self.mgmt_cidr matches Ok(c) ==> (!c.v6 ==> c.prefix <= 32))
    }
}

/// Why a topology cannot be planned.
pub enum PlanFailure {
    /// Endpoint text that is not `node:interface`.
    Endpoint(Seq<char>),
    /// An endpoint's node that the topology does not declare.
    MissingNode(Seq<char>),
    /// A deploy failure with this message.
    Deploy(Seq<char>),
    /// The management subnet did not parse.
    Subnet(Error),
}

/// `e` is the error that reports failure `f`.
pub open spec fn plan_fails_as(e: Error, f: PlanFailure) -> bool {
    match f {
        PlanFailure::Endpoint(s) => e matches Error::InvalidEndpoint { endpoint } && endpoint@ == s,
        PlanFailure::MissingNode(s) => e matches Error::NodeNotFound { name } && name@ == s,
        PlanFailure::Deploy(m) => e matches Error::DeployFailed(x) && x@ == m,
        PlanFailure::Subnet(x) => e == x,
    }
}

// ─── Namespaces and containers ──────────────────────────────────────

/// The create options of a container node, as characters.
pub open spec fn create_opts_of(node: Node, extra_hosts: Seq<String>) -> CreateOptsView {
    CreateOptsView {
        cmd: opt_strs(node.cmd),
        env_keys: match node.env { Some(e) => e.keys(), None => Seq::empty() },
        env_vals: match node.env { Some(e) => strs(e.vals()), None => Seq::empty() },
        volumes: match node.volumes { Some(v) => strs(v@), None => Seq::empty() },
        cpu: ostr(node.cpu),
        memory: ostr(node.memory),
        privileged: node.privileged,
        cap_add: strs(node.cap_add@),
        cap_drop: strs(node.cap_drop@),
        entrypoint: ostr(node.entrypoint),
        hostname: ostr(node.hostname),
        workdir: ostr(node.workdir),
        labels: strs(node.labels@),
        extra_hosts: strs(extra_hosts),
        configs: Seq::empty(),
        env_file: None,
        overlay: None,
    }
}


/// The op that creates node `i` (in name order): a container for an image
/// node, a namespace otherwise.
pub open spec fn create_op(t: Topology, extra: Seq<String>, n: DeployNames, i: int) -> OpView {
    let k = t.nodes.keys()[i];
    let node = t.nodes.vals()[i];
    match node.image {
        Some(img) => OpView::CreateContainer {
            node: k,
            name: t.lab.spec_prefix() + "-"@ + k,
            image: img@,
            pull: ostr(node.pull),
            opts: create_opts_of(node, extra),
        },
        None => OpView::CreateNamespace { node: k, ns: n.namespaces.view()[k]@ },
    }
}

/// The create ops of the first `i` nodes.
pub open spec fn create_ops(t: Topology, extra: Seq<String>, n: DeployNames, i: int) -> Seq<OpView>
    decreases i,
{
    if i <= 0 {
        Seq::empty()
    } else {
        create_ops(t, extra, n, i - 1).push(create_op(t, extra, n, i - 1))
    }
}

// ─── hwsim ──────────────────────────────────────────────────────────

/// `(node, interface)` of each wireless interface of node `i`.
pub open spec fn node_wifi_order(t: Topology, i: int) -> Seq<(Seq<char>, Seq<char>)> {
    t.nodes.vals()[i].wifi@.map_values(|w: WifiConfig| (t.nodes.keys()[i], w.name@))
}

/// The wireless interfaces of the first `i` nodes, node by node.
pub open spec fn wifi_order(t: Topology, i: int) -> Seq<(Seq<char>, Seq<char>)>
    decreases i,
{
    if i <= 0 {
        Seq::empty()
    } else {
        wifi_order(t, i - 1) + node_wifi_order(t, i - 1)
    }
}

/// Loading the radios, where there are any.
pub open spec fn hwsim_ops(t: Topology, n: DeployNames) -> Seq<OpView> {
    if n.radios > 0 {
        seq![OpView::LoadHwsim { radios: n.radios, order: wifi_order(t, t.nodes.keys().len() as int) }]
    } else {
        Seq::empty()
    }
}

// ─── Management bridge ──────────────────────────────────────────────

/// Whether the lab has a host-reachable management bridge.
pub open spec fn mgmt_used(t: Topology) -> bool {
    t.lab.mgmt_host_reachable && t.lab.mgmt_subnet is Some
}

/// The host addresses of an IPv4 prefix: its size less network and
/// broadcast addresses, and none for a /31 or /32.
pub open spec fn usable_v4(prefix: u8) -> int {
    let size = pow2((32 - prefix) as nat) as int;
    if size >= 2 { size - 2 } else { 0 }
}

/// The message of a management subnet too small for its nodes.
pub open spec fn small_subnet_msg(subnet: Seq<char>, usable: int, count: int) -> Seq<char> {
    "mgmt subnet "@ + subnet + " has "@ + dec(usable as nat) + " usable host address(es) but the bridge plus "@
        + dec(count as nat) + " nodes need "@ + dec((count + 1) as nat)
}

/// The management bridge at the first host address of the subnet, and a
/// veth per node at the following ones, nodes in name order.
pub open spec fn mgmt_ops(t: Topology, n: DeployNames) -> Result<Seq<OpView>, PlanFailure> {
    if !mgmt_used(t) {
        Ok(Seq::empty())
    } else {
        match n.mgmt_cidr {
            Err(e) => Err(PlanFailure::Subnet(e)),
            Ok(c) => if c.v6 {
                Err(PlanFailure::Deploy("mgmt subnet must be IPv4"@))
            } else {
                let count = t.nodes.keys().len() as int;
                let usable = usable_v4(c.prefix);
                if count + 1 > usable {
                    Err(PlanFailure::Deploy(small_subnet_msg(t.lab.mgmt_subnet->0@, usable, count)))
                } else {
                    let base = net_v4(c.addr, c.prefix as nat);
                    Ok(seq![OpView::CreateMgmtBridge { name: n.mgmt_bridge@, ip: (base + 1) as u32, prefix: c.prefix }]
                        + Seq::new(count as nat, |i: int| OpView::CreateMgmtVeth {
                            node: t.nodes.keys()[i],
                            peer: n.mgmt_peers@[i]@,
                            bridge: n.mgmt_bridge@,
                            node_ip: (base + 2 + i) as u32,
                            prefix: c.prefix,
                        }))
                }
            },
        }
    }
}

// ─── Bridge networks ────────────────────────────────────────────────

/// The namespace that holds the lab's bridges.
pub open spec fn mgmt_ns(t: Topology) -> Seq<char> {
    t.lab.spec_prefix() + "-mgmt"@
}

/// The VLAN settings of network member `member` on node `node`: its own
/// port entry, else its node's; only where they name VLANs or a PVID.
pub open spec fn port_vlans(net: Network, member: Seq<char>, node: Seq<char>) -> Option<(Seq<u16>, Option<u16>, bool)> {
    let ports = net.ports.view();
    let found: Option<PortConfig> = if ports.contains_key(member) {
        Some(ports[member])
    } else if ports.contains_key(node) {
        Some(ports[node])
    } else {
        None
    };
    match found {
        Some(p) => if p.vlans@.len() > 0 || p.pvid is Some {
            Some((p.vlans@, p.pvid, p.untagged == Some(true)))
        } else {
            None
        },
        None => None,
    }
}

/// The veth of member `j` of network `i` (in name order).
pub open spec fn member_op(t: Topology, n: DeployNames, i: int, j: int) -> Result<OpView, PlanFailure> {
    let name = t.networks.keys()[i];
    let net = t.networks.vals()[i];
    let m = net.members@[j]@;
    match endpoint_parts(m) {
        None => Err(PlanFailure::Endpoint(m)),
        Some((node, iface)) => if !t.nodes.view().contains_key(node) {
            Err(PlanFailure::MissingNode(node))
        } else {
            Ok(OpView::CreateNetworkVeth {
                node,
                iface,
                peer: n.member_peers.view()[name]@[j]@,
                mgmt_ns: mgmt_ns(t),
                bridge: n.bridges.view()[name]@,
                vlans: port_vlans(net, m, node),
            })
        },
    }
}

/// The veths of the first `j` members of network `i`, or the first
/// member that fails.
pub open spec fn member_ops(t: Topology, n: DeployNames, i: int, j: int) -> Result<Seq<OpView>, PlanFailure>
    decreases j,
{
    if j <= 0 {
        Ok(Seq::empty())
    } else {
        match member_ops(t, n, i, j - 1) {
            Err(f) => Err(f),
            Ok(s) => match member_op(t, n, i, j - 1) {
                Err(f) => Err(f),
                Ok(o) => Ok(s.push(o)),
            },
        }
    }
}

/// The bridge of network `i` followed by its member veths.
pub open spec fn network_block(t: Topology, n: DeployNames, i: int) -> Result<Seq<OpView>, PlanFailure> {
    let name = t.networks.keys()[i];
    let net = t.networks.vals()[i];
    match member_ops(t, n, i, net.members@.len() as int) {
        Err(f) => Err(f),
        Ok(s) => Ok(seq![OpView::CreateBridge {
            ns: mgmt_ns(t),
            network: name,
            name: n.bridges.view()[name]@,
            vlan_filtering: net.vlan_filtering == Some(true),
            mtu: net.mtu,
        }] + s),
    }
}

/// The blocks of the first `i` networks.
pub open spec fn network_blocks(t: Topology, n: DeployNames, i: int) -> Result<Seq<OpView>, PlanFailure>
    decreases i,
{
    if i <= 0 {
        Ok(Seq::empty())
    } else {
        match network_blocks(t, n, i - 1) {
            Err(f) => Err(f),
            Ok(s) => match network_block(t, n, i - 1) {
                Err(f) => Err(f),
                Ok(b) => Ok(s + b),
            },
        }
    }
}

/// The bridge namespace and every network, where there are networks.
pub open spec fn network_ops(t: Topology, n: DeployNames) -> Result<Seq<OpView>, PlanFailure> {
    if t.networks.keys().len() == 0 {
        Ok(Seq::empty())
    } else {
        match network_blocks(t, n, t.networks.keys().len() as int) {
            Err(f) => Err(f),
            Ok(s) => Ok(seq![OpView::CreateMgmtNamespace { ns: mgmt_ns(t) }] + s),
        }
    }
}

// ─── Point-to-point links ───────────────────────────────────────────

/// The veth pair of link `i`.
pub open spec fn link_op(t: Topology, i: int) -> Result<OpView, PlanFailure> {
    let l = t.links@[i];
    let a = l.endpoints@[0]@;
    let b = l.endpoints@[1]@;
    match endpoint_parts(a) {
        None => Err(PlanFailure::Endpoint(a)),
        Some(pa) => match endpoint_parts(b) {
            None => Err(PlanFailure::Endpoint(b)),
            Some(pb) => if !t.nodes.view().contains_key(pa.0) {
                Err(PlanFailure::MissingNode(pa.0))
            } else if !t.nodes.view().contains_key(pb.0) {
                Err(PlanFailure::MissingNode(pb.0))
            } else {
                Ok(OpView::CreateVeth { a: pa, b: pb, mtu: l.mtu })
            },
        },
    }
}

/// The veth pairs of the first `i` links, or the first link that fails.
pub open spec fn link_ops(t: Topology, i: int) -> Result<Seq<OpView>, PlanFailure>
    decreases i,
{
    if i <= 0 {
        Ok(Seq::empty())
    } else {
        match link_ops(t, i - 1) {
            Err(f) => Err(f),
            Ok(s) => match link_op(t, i - 1) {
                Err(f) => Err(f),
                Ok(o) => Ok(s.push(o)),
            },
        }
    }
}

// ─── Host-side links ────────────────────────────────────────────────

/// The macvlans, then the ipvlans, of node `i`.
pub open spec fn node_host_ops(t: Topology, i: int) -> Seq<OpView> {
    let k = t.nodes.keys()[i];
    let node = t.nodes.vals()[i];
    node.macvlans@.map_values(|m: MacvlanConfig| OpView::CreateMacvlan { node: k, cfg: m@ })
        + node.ipvlans@.map_values(|v: IpvlanConfig| OpView::CreateIpvlan { node: k, cfg: v@ })
}

/// The host-side links of the first `i` nodes.
pub open spec fn host_ops(t: Topology, i: int) -> Seq<OpView>
    decreases i,
{
    if i <= 0 {
        Seq::empty()
    } else {
        host_ops(t, i - 1) + node_host_ops(t, i - 1)
    }
}

// ─── Link bring-up ──────────────────────────────────────────────────

/// The interface of endpoint text `s` where it is an endpoint of node `k`.
pub open spec fn ep_iface(s: Seq<char>, k: Seq<char>) -> Seq<Seq<char>> {
    match endpoint_parts(s) {
        Some((node, iface)) => if node == k { seq![iface] } else { Seq::empty() },
        None => Seq::empty(),
    }
}

/// Node `k`'s interfaces on the first `i` links.
pub open spec fn link_ifaces_of(t: Topology, k: Seq<char>, i: int) -> Seq<Seq<char>>
    decreases i,
{
    if i <= 0 {
        Seq::empty()
    } else {
        link_ifaces_of(t, k, i - 1) + ep_iface(t.links@[i - 1].endpoints@[0]@, k)
            + ep_iface(t.links@[i - 1].endpoints@[1]@, k)
    }
}

/// Node `k`'s interfaces among the first `j` of members `ms`.
pub open spec fn members_iface(ms: Seq<String>, k: Seq<char>, j: int) -> Seq<Seq<char>>
    decreases j,
{
    if j <= 0 {
        Seq::empty()
    } else {
        members_iface(ms, k, j - 1) + ep_iface(ms[j - 1]@, k)
    }
}

/// Node `k`'s member interfaces in the first `i` networks.
pub open spec fn member_ifaces_of(t: Topology, k: Seq<char>, i: int) -> Seq<Seq<char>>
    decreases i,
{
    if i <= 0 {
        Seq::empty()
    } else {
        member_ifaces_of(t, k, i - 1)
            + members_iface(t.networks.vals()[i - 1].members@, k, t.networks.vals()[i - 1].members@.len() as int)
    }
}

/// The interfaces the lab creates in node `i`: loopback, link and
/// network ends, the management interface, macvlans, ipvlans and wireless
/// interfaces.
pub open spec fn up_list(t: Topology, i: int) -> Seq<Seq<char>> {
    let k = t.nodes.keys()[i];
    let node = t.nodes.vals()[i];
    seq!["lo"@] + link_ifaces_of(t, k, t.links@.len() as int) + member_ifaces_of(t, k, t.networks.keys().len() as int)
        + (if mgmt_used(t) { seq!["mgmt0"@] } else { Seq::empty() })
        + node.macvlans@.map_values(|m: MacvlanConfig| m.name@)
        + node.ipvlans@.map_values(|v: IpvlanConfig| v.name@)
        + node.wifi@.map_values(|w: WifiConfig| w.name@)
}

/// Bringing up node `i`'s interfaces, each once, in name order.
pub open spec fn up_op(t: Topology, i: int) -> OpView {
    OpView::LinksUp { node: t.nodes.keys()[i], ifaces: sorted_of(up_list(t, i).to_set()) }
}

/// The bring-up ops of the first `i` nodes.
pub open spec fn up_ops(t: Topology, i: int) -> Seq<OpView>
    decreases i,
{
    if i <= 0 {
        Seq::empty()
    } else {
        up_ops(t, i - 1).push(up_op(t, i - 1))
    }
}

// ─── Sysctls ────────────────────────────────────────────────────────

/// Node `i`'s sysctls, where it has any.
pub open spec fn sysctl_op(t: Topology, n: DeployNames, i: int) -> Seq<OpView> {
    let k = t.nodes.keys()[i];
    let m = n.sysctls.view()[k];
    if m.keys().len() > 0 {
        seq![OpView::Sysctls { node: k, keys: m.keys(), vals: strs(m.vals()) }]
    } else {
        Seq::empty()
    }
}

/// The sysctl ops of the first `i` nodes.
pub open spec fn sysctl_ops(t: Topology, n: DeployNames, i: int) -> Seq<OpView>
    decreases i,
{
    if i <= 0 {
        Seq::empty()
    } else {
        sysctl_ops(t, n, i - 1) + sysctl_op(t, n, i - 1)
    }
}

// ─── DNS ────────────────────────────────────────────────────────────

/// The `/etc` overlay of node `i`, where it is a namespace node.
pub open spec fn etc_op(t: Topology, n: DeployNames, i: int) -> Seq<OpView> {
    let k = t.nodes.keys()[i];
    if t.nodes.vals()[i].image is None {
        seq![OpView::DnsNetnsEtc { node: k, ns: n.namespaces.view()[k]@ }]
    } else {
        Seq::empty()
    }
}

/// The overlays of the first `i` nodes.
pub open spec fn etc_ops(t: Topology, n: DeployNames, i: int) -> Seq<OpView>
    decreases i,
{
    if i <= 0 {
        Seq::empty()
    } else {
        etc_ops(t, n, i - 1) + etc_op(t, n, i - 1)
    }
}

/// The hosts entries and overlays, where the lab resolves names through
/// hosts files and has entries to write.
pub open spec fn dns_ops(t: Topology, n: DeployNames) -> Seq<OpView> {
    if t.lab.dns == DnsMode::Hosts && hosts_entries(topology_addrs(t)).len() > 0 {
        seq![OpView::DnsInject { lab: t.lab.name@ }] + etc_ops(t, n, t.nodes.keys().len() as int)
    } else {
        Seq::empty()
    }
}

// ─── The plan ───────────────────────────────────────────────────────

/// The topology part of a deploy plan, section by section in stage
/// order, or the first failure.
pub open spec fn topology_plan(t: Topology, extra: Seq<String>, n: DeployNames) -> Result<Seq<OpView>, PlanFailure> {
    let len = t.nodes.keys().len() as int;
    match mgmt_ops(t, n) {
        Err(f) => Err(f),
        Ok(m) => match network_ops(t, n) {
            Err(f) => Err(f),
            Ok(w) => match link_ops(t, t.links@.len() as int) {
                Err(f) => Err(f),
                Ok(l) => Ok(create_ops(t, extra, n, len) + hwsim_ops(t, n) + m + w + l + host_ops(t, len)
                    + up_ops(t, len) + sysctl_ops(t, n, len) + dns_ops(t, n)),
            },
        },
    }
}

// ─── Stage order ────────────────────────────────────────────────────

/// Every op of `s` runs in the stage of rank `k`.
pub open spec fn all_rank(s: Seq<OpView>, k: int) -> bool {
    forall|i: int| 0 <= i < s.len() ==> rank_of(#[trigger] s[i]) == k
}

/// The ops of `s` come in stage order, none after stage rank `k`.
pub open spec fn sorted_upto(s: Seq<OpView>, k: int) -> bool {
    &&& forall|i: int| 0 <= i < s.len() ==> rank_of(#[trigger] s[i]) <= k
    &&& forall|i: int, j: int| 0 <= i < j < s.len() ==> rank_of(#[trigger] s[i]) <= rank_of(#[trigger] s[j])
}

proof fn lemma_sorted_append(a: Seq<OpView>, b: Seq<OpView>, k: int, k2: int)
    requires
        sorted_upto(a, k),
        all_rank(b, k2),
        k <= k2,
    ensures
        sorted_upto(a + b, k2),
{
    let c = a + b;
    assert forall|i: int| 0 <= i < c.len() implies rank_of(#[trigger] c[i]) <= k2 by {
        if i < a.len() {
            assert(c[i] == a[i]);
        } else {
            assert(c[i] == b[i - a.len()]);
        }
    }
    assert forall|i: int, j: int| 0 <= i < j < c.len() implies rank_of(#[trigger] c[i]) <= rank_of(#[trigger] c[j]) by {
        if j < a.len() {
            assert(c[i] == a[i]);
            assert(c[j] == a[j]);
        } else if i < a.len() {
            assert(c[i] == a[i]);
            assert(c[j] == b[j - a.len()]);
        } else {
            assert(c[i] == b[i - a.len()]);
            assert(c[j] == b[j - a.len()]);
        }
    }
}

proof fn lemma_all_rank_append(a: Seq<OpView>, b: Seq<OpView>, k: int)
    requires
        all_rank(a, k),
        all_rank(b, k),
    ensures
        all_rank(a + b, k),
{
    assert forall|i: int| 0 <= i < (a + b).len() implies rank_of(#[trigger] (a + b)[i]) == k by {
        if i < a.len() {
            assert((a + b)[i] == a[i]);
        } else {
            assert((a + b)[i] == b[i - a.len()]);
        }
    }
}

proof fn lemma_create_rank(t: Topology, extra: Seq<String>, n: DeployNames, i: int)
    ensures
        all_rank(create_ops(t, extra, n, i), 0),
    decreases i,
{
    if i > 0 {
        lemma_create_rank(t, extra, n, i - 1);
        lemma_all_rank_append(create_ops(t, extra, n, i - 1), seq![create_op(t, extra, n, i - 1)], 0);
        assert(create_ops(t, extra, n, i) =~= create_ops(t, extra, n, i - 1) + seq![create_op(t, extra, n, i - 1)]);
    }
}

proof fn lemma_member_rank(t: Topology, n: DeployNames, i: int, j: int)
    ensures
        member_ops(t, n, i, j) matches Ok(s) ==> all_rank(s, 3),
    decreases j,
{
    if j > 0 {
        lemma_member_rank(t, n, i, j - 1);
        if let Ok(s) = member_ops(t, n, i, j - 1) {
            if let Ok(o) = member_op(t, n, i, j - 1) {
                lemma_all_rank_append(s, seq![o], 3);
                assert(s.push(o) =~= s + seq![o]);
            }
        }
    }
}

proof fn lemma_blocks_rank(t: Topology, n: DeployNames, i: int)
    ensures
        network_blocks(t, n, i) matches Ok(s) ==> all_rank(s, 3),
    decreases i,
{
    if i > 0 {
        lemma_blocks_rank(t, n, i - 1);
        let net = t.networks.vals()[i - 1];
        lemma_member_rank(t, n, i - 1, net.members@.len() as int);
        if let Ok(s) = network_blocks(t, n, i - 1) {
            if let Ok(m) = member_ops(t, n, i - 1, net.members@.len() as int) {
                let name = t.networks.keys()[i - 1];
                let bop = OpView::CreateBridge {
                    ns: mgmt_ns(t),
                    network: name,
                    name: n.bridges.view()[name]@,
                    vlan_filtering: net.vlan_filtering == Some(true),
                    mtu: net.mtu,
                };
                lemma_all_rank_append(seq![bop], m, 3);
                lemma_all_rank_append(s, seq![bop] + m, 3);
            }
        }
    }
}

proof fn lemma_link_rank(t: Topology, i: int)
    ensures
        link_ops(t, i) matches Ok(s) ==> all_rank(s, 4),
    decreases i,
{
    if i > 0 {
        lemma_link_rank(t, i - 1);
        if let Ok(s) = link_ops(t, i - 1) {
            if let Ok(o) = link_op(t, i - 1) {
                lemma_all_rank_append(s, seq![o], 4);
                assert(s.push(o) =~= s + seq![o]);
            }
        }
    }
}

proof fn lemma_host_rank(t: Topology, i: int)
    ensures
        all_rank(host_ops(t, i), 5),
    decreases i,
{
    if i > 0 {
        lemma_host_rank(t, i - 1);
        let k = t.nodes.keys()[i - 1];
        let node = t.nodes.vals()[i - 1];
        let a = node.macvlans@.map_values(|m: MacvlanConfig| OpView::CreateMacvlan { node: k, cfg: m@ });
        let b = node.ipvlans@.map_values(|v: IpvlanConfig| OpView::CreateIpvlan { node: k, cfg: v@ });
        assert(all_rank(a, 5));
        assert(all_rank(b, 5));
        lemma_all_rank_append(a, b, 5);
        lemma_all_rank_append(host_ops(t, i - 1), a + b, 5);
    }
}

proof fn lemma_up_rank(t: Topology, i: int)
    ensures
        all_rank(up_ops(t, i), 6),
    decreases i,
{
    if i > 0 {
        lemma_up_rank(t, i - 1);
        lemma_all_rank_append(up_ops(t, i - 1), seq![up_op(t, i - 1)], 6);
        assert(up_ops(t, i) =~= up_ops(t, i - 1) + seq![up_op(t, i - 1)]);
    }
}

proof fn lemma_sysctl_rank(t: Topology, n: DeployNames, i: int)
    ensures
        all_rank(sysctl_ops(t, n, i), 7),
    decreases i,
{
    if i > 0 {
        lemma_sysctl_rank(t, n, i - 1);
        lemma_all_rank_append(sysctl_ops(t, n, i - 1), sysctl_op(t, n, i - 1), 7);
    }
}

proof fn lemma_etc_rank(t: Topology, n: DeployNames, i: int)
    ensures
        all_rank(etc_ops(t, n, i), 11),
    decreases i,
{
    if i > 0 {
        lemma_etc_rank(t, n, i - 1);
        lemma_all_rank_append(etc_ops(t, n, i - 1), etc_op(t, n, i - 1), 11);
    }
}

/// The topology part of a deploy plan comes in stage order: namespaces,
/// radios, the management bridge, networks, links, host-side links,
/// bring-up, sysctls, then DNS.
pub proof fn lemma_topology_plan_in_stage_order(t: Topology, extra: Seq<String>, n: DeployNames)
    ensures
        topology_plan(t, extra, n) matches Ok(s) ==> forall|i: int, j: int| 0 <= i < j < s.len()
            ==> rank_of(#[trigger] s[i]) <= rank_of(#[trigger] s[j]),
{
    if let Ok(s) = topology_plan(t, extra, n) {
        let len = t.nodes.keys().len() as int;
        let m = mgmt_ops(t, n)->Ok_0;
        let w = network_ops(t, n)->Ok_0;
        let l = link_ops(t, t.links@.len() as int)->Ok_0;
        let c = create_ops(t, extra, n, len);
        let hw = hwsim_ops(t, n);
        lemma_create_rank(t, extra, n, len);
        assert(sorted_upto(Seq::<OpView>::empty(), 0));
        lemma_sorted_append(Seq::<OpView>::empty(), c, 0, 0);
        assert(Seq::<OpView>::empty() + c =~= c);
        assert(all_rank(hw, 1));
        lemma_sorted_append(c, hw, 0, 1);
        let p2 = c + hw;
        if m.len() > 0 {
            assert(all_rank(m, 2)) by {
                let count = t.nodes.keys().len() as int;
                let c0 = n.mgmt_cidr->Ok_0;
                let base = net_v4(c0.addr, c0.prefix as nat);
                let vs = Seq::new(count as nat, |i: int| OpView::CreateMgmtVeth {
                    node: t.nodes.keys()[i],
                    peer: n.mgmt_peers@[i]@,
                    bridge: n.mgmt_bridge@,
                    node_ip: (base + 2 + i) as u32,
                    prefix: c0.prefix,
                });
                assert(all_rank(vs, 2));
            }
        } else {
            assert(all_rank(m, 2));
        }
        lemma_sorted_append(p2, m, 1, 2);
        let p3 = p2 + m;
        lemma_blocks_rank(t, n, t.networks.keys().len() as int);
        if t.networks.keys().len() > 0 {
            let bl = network_blocks(t, n, t.networks.keys().len() as int)->Ok_0;
            lemma_all_rank_append(seq![OpView::CreateMgmtNamespace { ns: mgmt_ns(t) }], bl, 3);
        }
        assert(all_rank(w, 3));
        lemma_sorted_append(p3, w, 2, 3);
        let p4 = p3 + w;
        lemma_link_rank(t, t.links@.len() as int);
        lemma_sorted_append(p4, l, 3, 4);
        let p5 = p4 + l;
        lemma_host_rank(t, len);
        lemma_sorted_append(p5, host_ops(t, len), 4, 5);
        let p6 = p5 + host_ops(t, len);
        lemma_up_rank(t, len);
        lemma_sorted_append(p6, up_ops(t, len), 5, 6);
        let p7 = p6 + up_ops(t, len);
        lemma_sysctl_rank(t, n, len);
        lemma_sorted_append(p7, sysctl_ops(t, n, len), 6, 7);
        let p8 = p7 + sysctl_ops(t, n, len);
        lemma_etc_rank(t, n, len);
        if t.lab.dns == DnsMode::Hosts && hosts_entries(topology_addrs(t)).len() > 0 {
            lemma_all_rank_append(seq![OpView::DnsInject { lab: t.lab.name@ }], etc_ops(t, n, len), 11);
        }
        assert(all_rank(dns_ops(t, n), 11));
        lemma_sorted_append(p8, dns_ops(t, n), 7, 11);
        assert(s == p8 + dns_ops(t, n));
    }
}

// ─── Executable sections ────────────────────────────────────────────

/// Every node of a well-formed topology is well formed, and its position
/// gives its entry.
proof fn lemma_node_at(t: Topology, i: int)
    requires
        t.wf(),
        0 <= i < t.nodes.keys().len(),
    ensures
        t.nodes.view().contains_key(t.nodes.keys()[i]),
        t.nodes.view()[t.nodes.keys()[i]] == t.nodes.vals()[i],
        t.nodes.vals()[i].wf(),
{
    t.nodes.lemma_view();
    let k = t.nodes.keys()[i];
    assert(t.nodes.view().contains_key(k));
}

/// The create options of a container node.
fn create_opts(node: &Node, extra: &[String]) -> (o: CreateOpts)
    requires
        node.wf(),
    ensures
        o@ == create_opts_of(*node, extra@),
{
    let o = build_create_opts(node, extra);
    let ghost env = node.env;
    proof {
        match env {
            Some(e) => {
                e.lemma_view();
                o.env.lemma_view();
                assert forall|j: int| 0 <= j < o.env.vals().len() implies o.env.vals()[j] == e.vals()[j] by {
                    assert(o.env.view()[o.env.keys()[j]] == o.env.vals()[j]);
                    assert(e.view()[e.keys()[j]] == e.vals()[j]);
                }
                assert(o.env.vals() =~= e.vals());
            },
            None => {
                o.env.lemma_lens();
                assert(strs(o.env.vals()) =~= Seq::<Seq<char>>::empty());
            },
        }
        assert(pair_strs(o.configs@) =~= Seq::<(Seq<char>, Seq<char>)>::empty());
        assert(o.volumes@ == (match node.volumes { Some(v) => v@, None => Seq::<String>::empty() }));
        if node.volumes is None {
            assert(strs(o.volumes@) =~= Seq::<Seq<char>>::empty());
        }
        // the views agree field by field
        let w = create_opts_of(*node, extra@);
        assert(o@.cmd == w.cmd);
        assert(o@.env_keys == w.env_keys);
        assert(o@.env_vals == w.env_vals);
        assert(o@.volumes == w.volumes);
        assert(o@.cpu == w.cpu);
        assert(o@.cap_add == w.cap_add);
        assert(o@.labels == w.labels);
        assert(o@.extra_hosts == w.extra_hosts);
        assert(o@.configs == w.configs);
    }
    o
}

/// Appends the create op of every node.
fn push_create_ops(t: &Topology, extra: &[String], names: &DeployNames, ops: &mut Vec<Op>)
    requires
        t.wf(),
        names.covers(*t),
    ensures
        views(final(ops)@) == views(old(ops)@) + create_ops(*t, extra@, *names, t.nodes.keys().len() as int),
{
    let ghost start = views(ops@);
    let len = t.nodes.len();
    let mut i: usize = 0;
    while i < len
        invariant
            t.wf(),
            names.covers(*t),
            len == t.nodes.keys().len(),
            i <= len,
            views(ops@) == start + create_ops(*t, extra@, *names, i as int),
        decreases len - i,
    {
        let k = t.nodes.key_at(i);
        let node = t.nodes.value_at(i);
        proof { lemma_node_at(*t, i as int); }
        let op = match &node.image {
            Some(img) => {
                let mut name = String::new();
                push_str(&mut name, t.lab.prefix());
                push_str(&mut name, "-");
                push_str(&mut name, k.as_str());
                Op::CreateContainer {
                    node: k.clone(),
                    name,
                    image: img.clone(),
                    pull: copy_opt(&node.pull),
                    opts: create_opts(node, extra),
                }
            },
            None => {
                let ns = match names.namespaces.get(k.as_str()) {
                    Some(s) => s.clone(),
                    None => String::new(),
                };
                Op::CreateNamespace { node: k.clone(), ns }
            },
        };
        let ghost before = ops@;
        ops.push(op);
        proof {
            assert(views(ops@) =~= views(before).push(op@));
        }
        i = i + 1;
    }
}

/// The `(node, interface)` pairs of one node's wireless interfaces.
fn push_wifi_order(order: &mut Vec<(String, String)>, k: &String, wifi: &Vec<WifiConfig>)
    ensures
        pair_strs(final(order)@) == pair_strs(old(order)@) + wifi@.map_values(|w: WifiConfig| (k@, w.name@)),
{
    let ghost start = pair_strs(order@);
    let mut j: usize = 0;
    while j < wifi.len()
        invariant
            j <= wifi@.len(),
            pair_strs(order@) == start + wifi@.take(j as int).map_values(|w: WifiConfig| (k@, w.name@)),
        decreases wifi@.len() - j,
    {
        let ghost before = order@;
        order.push((k.clone(), wifi[j].name.clone()));
        proof {
            assert(pair_strs(order@) =~= pair_strs(before).push((k@, wifi@[j as int].name@)));
            assert(wifi@.take(j + 1).map_values(|w: WifiConfig| (k@, w.name@))
                =~= wifi@.take(j as int).map_values(|w: WifiConfig| (k@, w.name@)).push((k@, wifi@[j as int].name@)));
        }
        j = j + 1;
    }
    proof {
        assert(wifi@.take(j as int) =~= wifi@);
    }
}

/// Appends the hwsim op, where radios are to be loaded.
fn push_hwsim_ops(t: &Topology, names: &DeployNames, ops: &mut Vec<Op>)
    ensures
        views(final(ops)@) == views(old(ops)@) + hwsim_ops(*t, *names),
{
    if names.radios == 0 {
        proof { assert(views(ops@) =~= views(ops@) + hwsim_ops(*t, *names)); }
        return;
    }
    let len = t.nodes.len();
    let mut order: Vec<(String, String)> = Vec::new();
    let mut i: usize = 0;
    proof { assert(pair_strs(order@) =~= wifi_order(*t, 0)); }
    while i < len
        invariant
            len == t.nodes.keys().len(),
            i <= len,
            pair_strs(order@) == wifi_order(*t, i as int),
        decreases len - i,
    {
        let k = t.nodes.key_at(i);
        let node = t.nodes.value_at(i);
        push_wifi_order(&mut order, k, &node.wifi);
        proof {
            assert(node_wifi_order(*t, i as int) =~= node.wifi@.map_values(|w: WifiConfig| (k@, w.name@)));
        }
        i = i + 1;
    }
    let op = Op::LoadHwsim { radios: names.radios, order };
    let ghost before = ops@;
    ops.push(op);
    proof {
        assert(views(ops@) =~= views(before).push(op@));
        assert(views(before).push(op@) =~= views(before) + hwsim_ops(*t, *names));
    }
}

/// The message of a management subnet too small for its nodes.
fn small_subnet_message(subnet: &str, usable: u64, count: u64) -> (m: String)
    requires
        count < u64::MAX,
    ensures
        m@ == small_subnet_msg(subnet@, usable as int, count as int),
{
    let mut m = String::new();
    push_str(&mut m, "mgmt subnet ");
    push_str(&mut m, subnet);
    push_str(&mut m, " has ");
    push_dec(&mut m, usable);
    push_str(&mut m, " usable host address(es) but the bridge plus ");
    push_dec(&mut m, count);
    push_str(&mut m, " nodes need ");
    push_dec(&mut m, count + 1);
    m
}

/// Appends the management bridge and its veths, or fails as
/// [`mgmt_ops`] says.
fn push_mgmt_ops(t: &Topology, names: &DeployNames, ops: &mut Vec<Op>) -> (r: Result<(), Error>)
    requires
        names.covers(*t),
        t.nodes.keys().len() < u64::MAX,
    ensures
        match mgmt_ops(*t, *names) {
            Ok(s) => r is Ok && views(final(ops)@) == views(old(ops)@) + s,
            Err(f) => r matches Err(e) && plan_fails_as(e, f),
        },
{
    if !t.lab.mgmt_host_reachable {
        proof { assert(views(ops@) =~= views(ops@) + Seq::<OpView>::empty()); }
        return Ok(());
    }
    let subnet = match &t.lab.mgmt_subnet {
        Some(s) => s,
        None => {
            proof { assert(views(ops@) =~= views(ops@) + Seq::<OpView>::empty()); }
            return Ok(());
        },
    };
    let c = match &names.mgmt_cidr {
        Ok(c) => *c,
        Err(e) => return Err(e.copy()),
    };
    if c.v6 {
        return Err(Error::DeployFailed(crate::text::owned("mgmt subnet must be IPv4")));
    }
    let s: u64 = (32 - c.prefix) as u64;
    proof {
        lemma_u64_pow2_no_overflow(s as nat);
        lemma_u64_shl_is_mul(1, s);
        lemma_pow2_pos(s as nat);
    }
    let size: u64 = 1u64 << s;
    let usable: u64 = if size >= 2 { size - 2 } else { 0 };
    let count: u64 = t.nodes.len() as u64;
    if count >= usable {
        return Err(Error::DeployFailed(small_subnet_message(subnet.as_str(), usable, count)));
    }
    let base = match network_v4(c.addr, c.prefix as u32) {
        Some(b) => b,
        None => 0,
    };
    proof {
        lemma_net_v4_block(c.addr, c.prefix as nat);
    }
    let ghost start = views(ops@);
    let bridge_op = Op::CreateMgmtBridge { name: names.mgmt_bridge.clone(), ip: base + 1, prefix: c.prefix };
    ops.push(bridge_op);
    proof { assert(views(ops@) =~= start.push(bridge_op@)); }
    let len = t.nodes.len();
    let mut i: usize = 0;
    while i < len
        invariant
            names.covers(*t),
            len == t.nodes.keys().len(),
            len == count,
            count + 2 <= size,
            size == pow2(s as nat),
            s == 32 - c.prefix,
            base == net_v4(c.addr, c.prefix as nat),
            base + size <= 0x1_0000_0000,
            i <= len,
            views(ops@) == start.push(bridge_op@) + Seq::new(i as nat, |j: int| OpView::CreateMgmtVeth {
                node: t.nodes.keys()[j],
                peer: names.mgmt_peers@[j]@,
                bridge: names.mgmt_bridge@,
                node_ip: (base + 2 + j) as u32,
                prefix: c.prefix,
            }),
        decreases len - i,
    {
        let ip: u32 = base + 2 + i as u32;
        let op = Op::CreateMgmtVeth {
            node: t.nodes.key_at(i).clone(),
            peer: names.mgmt_peers[i].clone(),
            bridge: names.mgmt_bridge.clone(),
            node_ip: ip,
            prefix: c.prefix,
        };
        let ghost before = ops@;
        ops.push(op);
        proof {
            assert(views(ops@) =~= views(before).push(op@));
        }
        i = i + 1;
        proof {
            let f = |j: int| OpView::CreateMgmtVeth {
                node: t.nodes.keys()[j],
                peer: names.mgmt_peers@[j]@,
                bridge: names.mgmt_bridge@,
                node_ip: (base + 2 + j) as u32,
                prefix: c.prefix,
            };
            assert(Seq::new(i as nat, f) =~= Seq::new((i - 1) as nat, f).push(f(i - 1)));
        }
    }
    proof {
        let f = |j: int| OpView::CreateMgmtVeth {
            node: t.nodes.keys()[j],
            peer: names.mgmt_peers@[j]@,
            bridge: names.mgmt_bridge@,
            node_ip: (base + 2 + j) as u32,
            prefix: c.prefix,
        };
        assert(start.push(bridge_op@) + Seq::new(len as nat, f) =~= start + (seq![bridge_op@] + Seq::new(len as nat, f)));
    }
    Ok(())
}

/// A member that fails stops the network's members there.
proof fn lemma_member_ops_stop(t: Topology, n: DeployNames, i: int, j: int, k: int)
    requires
        0 <= j <= k,
        member_ops(t, n, i, j) is Err,
    ensures
        member_ops(t, n, i, k) == member_ops(t, n, i, j),
    decreases k - j,
{
    if k > j {
        lemma_member_ops_stop(t, n, i, j, k - 1);
    }
}

/// A network that fails stops the networks there.
proof fn lemma_network_blocks_stop(t: Topology, n: DeployNames, i: int, k: int)
    requires
        0 <= i <= k,
        network_blocks(t, n, i) is Err,
    ensures
        network_blocks(t, n, k) == network_blocks(t, n, i),
    decreases k - i,
{
    if k > i {
        lemma_network_blocks_stop(t, n, i, k - 1);
    }
}

/// A link that fails stops the links there.
proof fn lemma_link_ops_stop(t: Topology, i: int, k: int)
    requires
        0 <= i <= k,
        link_ops(t, i) is Err,
    ensures
        link_ops(t, k) == link_ops(t, i),
    decreases k - i,
{
    if k > i {
        lemma_link_ops_stop(t, i, k - 1);
    }
}

/// Every network of a well-formed topology is well formed, and its
/// position gives its entry.
proof fn lemma_network_at(t: Topology, i: int)
    requires
        t.wf(),
        0 <= i < t.networks.keys().len(),
    ensures
        t.networks.view().contains_key(t.networks.keys()[i]),
        t.networks.view()[t.networks.keys()[i]] == t.networks.vals()[i],
        t.networks.vals()[i].wf(),
{
    t.networks.lemma_view();
    let k = t.networks.keys()[i];
    assert(t.networks.view().contains_key(k));
}

/// The VLAN settings of a member's port (see [`port_vlans`]).
fn member_vlans(net: &Network, member: &str, node: &str) -> (r: Option<PortVlans>)
    requires
        net.wf(),
    ensures
        match r {
            Some(v) => port_vlans(*net, member@, node@) == Some(v@),
            None => port_vlans(*net, member@, node@) is None,
        },
{
    let found = match net.ports.get(member) {
        Some(p) => Some(p),
        None => net.ports.get(node),
    };
    match found {
        Some(p) => {
            if p.vlans.len() > 0 || p.pvid.is_some() {
                Some(PortVlans { vlans: copy_vids(p.vlans.as_slice()), pvid: p.pvid, untagged: p.untagged == Some(true) })
            } else {
                None
            }
        },
        None => None,
    }
}

/// Appends the veths of the members of network `i`, or fails at the
/// first member that does.
fn push_member_ops(t: &Topology, names: &DeployNames, i: usize, ns: &String, bridge: &String, ops: &mut Vec<Op>)
    -> (r: Result<(), Error>)
    requires
        t.wf(),
        names.covers(*t),
        i < t.networks.keys().len(),
        ns@ == mgmt_ns(*t),
        bridge@ == names.bridges.view()[t.networks.keys()[i as int]]@,
    ensures
        match member_ops(*t, *names, i as int, t.networks.vals()[i as int].members@.len() as int) {
            Ok(s) => r is Ok && views(final(ops)@) == views(old(ops)@) + s,
            Err(f) => r matches Err(e) && plan_fails_as(e, f),
        },
{
    proof { lemma_network_at(*t, i as int); }
    let name = t.networks.key_at(i);
    let net = t.networks.value_at(i);
    let peers = match names.member_peers.get(name.as_str()) {
        Some(p) => p,
        None => return Ok(()),
    };
    let ghost start = views(ops@);
    let ghost mut acc: Seq<OpView> = Seq::empty();
    let mut j: usize = 0;
    while j < net.members.len()
        invariant
            t.wf(),
            names.covers(*t),
            i < t.networks.keys().len(),
            *net == t.networks.vals()[i as int],
            net.wf(),
            name@ == t.networks.keys()[i as int],
            *peers == names.member_peers.view()[name@],
            peers@.len() == net.members@.len(),
            ns@ == mgmt_ns(*t),
            bridge@ == names.bridges.view()[name@]@,
            j <= net.members@.len(),
            views(ops@) == start + acc,
            member_ops(*t, *names, i as int, j as int) == Ok::<Seq<OpView>, PlanFailure>(acc),
        decreases net.members@.len() - j,
    {
        let member = &net.members[j];
        let ep = match EndpointRef::parse(member.as_str()) {
            Some(ep) => ep,
            None => {
                proof {
                    lemma_member_ops_stop(*t, *names, i as int, j + 1, net.members@.len() as int);
                }
                return Err(Error::InvalidEndpoint { endpoint: member.clone() });
            },
        };
        if !t.nodes.contains_key(ep.node.as_str()) {
            proof {
                lemma_member_ops_stop(*t, *names, i as int, j + 1, net.members@.len() as int);
            }
            return Err(Error::NodeNotFound { name: ep.node });
        }
        let vlans = member_vlans(net, member.as_str(), ep.node.as_str());
        let op = Op::CreateNetworkVeth {
            node: ep.node,
            iface: ep.iface,
            peer: peers[j].clone(),
            mgmt_ns: ns.clone(),
            bridge: bridge.clone(),
            vlans,
        };
        let ghost before = ops@;
        ops.push(op);
        proof {
            assert(views(ops@) =~= views(before).push(op@));
            acc = acc.push(op@);
            assert(views(ops@) =~= start + acc);
        }
        j = j + 1;
    }
    Ok(())
}

/// Appends the bridge namespace and every network's bridge and member
/// veths, or fails as [`network_ops`] says.
fn push_network_ops(t: &Topology, names: &DeployNames, ops: &mut Vec<Op>) -> (r: Result<(), Error>)
    requires
        t.wf(),
        names.covers(*t),
    ensures
        match network_ops(*t, *names) {
            Ok(s) => r is Ok && views(final(ops)@) == views(old(ops)@) + s,
            Err(f) => r matches Err(e) && plan_fails_as(e, f),
        },
{
    if t.networks.is_empty() {
        proof { assert(views(ops@) =~= views(ops@) + Seq::<OpView>::empty()); }
        return Ok(());
    }
    let mut ns = String::new();
    push_str(&mut ns, t.lab.prefix());
    push_str(&mut ns, "-mgmt");
    let ghost start = views(ops@);
    let first = Op::CreateMgmtNamespace { ns: ns.clone() };
    ops.push(first);
    proof { assert(views(ops@) =~= start.push(first@)); }
    let ghost mut acc: Seq<OpView> = Seq::empty();
    let len = t.networks.len();
    let mut i: usize = 0;
    while i < len
        invariant
            t.wf(),
            names.covers(*t),
            len == t.networks.keys().len(),
            ns@ == mgmt_ns(*t),
            first@ == (OpView::CreateMgmtNamespace { ns: mgmt_ns(*t) }),
            i <= len,
            views(ops@) == start.push(first@) + acc,
            network_blocks(*t, *names, i as int) == Ok::<Seq<OpView>, PlanFailure>(acc),
        decreases len - i,
    {
        proof { lemma_network_at(*t, i as int); }
        let name = t.networks.key_at(i);
        let net = t.networks.value_at(i);
        let bridge = match names.bridges.get(name.as_str()) {
            Some(b) => b.clone(),
            None => String::new(),
        };
        let bop = Op::CreateBridge {
            ns: ns.clone(),
            network: name.clone(),
            name: bridge.clone(),
            vlan_filtering: net.vlan_filtering == Some(true),
            mtu: net.mtu,
        };
        let ghost before = ops@;
        ops.push(bop);
        proof { assert(views(ops@) =~= views(before).push(bop@)); }
        let ghost mid = ops@;
        match push_member_ops(t, names, i, &ns, &bridge, ops) {
            Ok(()) => {},
            Err(e) => {
                proof {
                    lemma_network_blocks_stop(*t, *names, i + 1, len as int);
                }
                return Err(e);
            },
        }
        proof {
            let s = member_ops(*t, *names, i as int, t.networks.vals()[i as int].members@.len() as int)->Ok_0;
            assert(network_block(*t, *names, i as int) == Ok::<Seq<OpView>, PlanFailure>(seq![bop@] + s));
            assert(views(ops@) =~= start.push(first@) + (acc + (seq![bop@] + s)));
            acc = acc + (seq![bop@] + s);
        }
        i = i + 1;
    }
    proof {
        assert(start.push(first@) + acc =~= start + (seq![first@] + acc));
    }
    Ok(())
}

/// Appends the veth pair of every link, or fails at the first link that
/// does.
fn push_link_ops(t: &Topology, ops: &mut Vec<Op>) -> (r: Result<(), Error>)
    requires
        t.wf(),
    ensures
        match link_ops(*t, t.links@.len() as int) {
            Ok(s) => r is Ok && views(final(ops)@) == views(old(ops)@) + s,
            Err(f) => r matches Err(e) && plan_fails_as(e, f),
        },
{
    let ghost start = views(ops@);
    let ghost mut acc: Seq<OpView> = Seq::empty();
    let mut i: usize = 0;
    while i < t.links.len()
        invariant
            t.wf(),
            i <= t.links@.len(),
            views(ops@) == start + acc,
            link_ops(*t, i as int) == Ok::<Seq<OpView>, PlanFailure>(acc),
        decreases t.links@.len() - i,
    {
        let link = &t.links[i];
        let a = match EndpointRef::parse(link.endpoints[0].as_str()) {
            Some(a) => a,
            None => {
                proof { lemma_link_ops_stop(*t, i + 1, t.links@.len() as int); }
                return Err(Error::InvalidEndpoint { endpoint: link.endpoints[0].clone() });
            },
        };
        let b = match EndpointRef::parse(link.endpoints[1].as_str()) {
            Some(b) => b,
            None => {
                proof { lemma_link_ops_stop(*t, i + 1, t.links@.len() as int); }
                return Err(Error::InvalidEndpoint { endpoint: link.endpoints[1].clone() });
            },
        };
        if !t.nodes.contains_key(a.node.as_str()) {
            proof { lemma_link_ops_stop(*t, i + 1, t.links@.len() as int); }
            return Err(Error::NodeNotFound { name: a.node });
        }
        if !t.nodes.contains_key(b.node.as_str()) {
            proof { lemma_link_ops_stop(*t, i + 1, t.links@.len() as int); }
            return Err(Error::NodeNotFound { name: b.node });
        }
        let op = Op::CreateVeth { a, b, mtu: link.mtu };
        let ghost before = ops@;
        ops.push(op);
        proof {
            assert(views(ops@) =~= views(before).push(op@));
            acc = acc.push(op@);
            assert(views(ops@) =~= start + acc);
        }
        i = i + 1;
    }
    Ok(())
}

/// Appends the macvlans and ipvlans of every node.
fn push_host_ops(t: &Topology, ops: &mut Vec<Op>)
    ensures
        views(final(ops)@) == views(old(ops)@) + host_ops(*t, t.nodes.keys().len() as int),
{
    let ghost start = views(ops@);
    let len = t.nodes.len();
    let mut i: usize = 0;
    while i < len
        invariant
            len == t.nodes.keys().len(),
            i <= len,
            views(ops@) == start + host_ops(*t, i as int),
        decreases len - i,
    {
        let k = t.nodes.key_at(i);
        let node = t.nodes.value_at(i);
        let ghost base = views(ops@);
        let mut j: usize = 0;
        while j < node.macvlans.len()
            invariant
                j <= node.macvlans@.len(),
                views(ops@) == base + node.macvlans@.take(j as int).map_values(
                    |m: MacvlanConfig| OpView::CreateMacvlan { node: k@, cfg: m@ }),
            decreases node.macvlans@.len() - j,
        {
            let op = Op::CreateMacvlan { node: k.clone(), cfg: node.macvlans[j].copy() };
            let ghost before = ops@;
            ops.push(op);
            proof {
                assert(views(ops@) =~= views(before).push(op@));
                assert(node.macvlans@.take(j + 1).map_values(|m: MacvlanConfig| OpView::CreateMacvlan { node: k@, cfg: m@ })
                    =~= node.macvlans@.take(j as int).map_values(
                        |m: MacvlanConfig| OpView::CreateMacvlan { node: k@, cfg: m@ }).push(op@));
            }
            j = j + 1;
        }
        proof { assert(node.macvlans@.take(j as int) =~= node.macvlans@); }
        let ghost mid = views(ops@);
        let mut j: usize = 0;
        while j < node.ipvlans.len()
            invariant
                j <= node.ipvlans@.len(),
                views(ops@) == mid + node.ipvlans@.take(j as int).map_values(
                    |v: IpvlanConfig| OpView::CreateIpvlan { node: k@, cfg: v@ }),
            decreases node.ipvlans@.len() - j,
        {
            let op = Op::CreateIpvlan { node: k.clone(), cfg: node.ipvlans[j].copy() };
            let ghost before = ops@;
            ops.push(op);
            proof {
                assert(views(ops@) =~= views(before).push(op@));
                assert(node.ipvlans@.take(j + 1).map_values(|v: IpvlanConfig| OpView::CreateIpvlan { node: k@, cfg: v@ })
                    =~= node.ipvlans@.take(j as int).map_values(
                        |v: IpvlanConfig| OpView::CreateIpvlan { node: k@, cfg: v@ }).push(op@));
            }
            j = j + 1;
        }
        proof {
            assert(node.ipvlans@.take(j as int) =~= node.ipvlans@);
            assert(node_host_ops(*t, i as int) =~= node.macvlans@.map_values(
                |m: MacvlanConfig| OpView::CreateMacvlan { node: k@, cfg: m@ })
                + node.ipvlans@.map_values(|v: IpvlanConfig| OpView::CreateIpvlan { node: k@, cfg: v@ }));
            assert(views(ops@) =~= start + host_ops(*t, i + 1));
        }
        i = i + 1;
    }
}

/// Records `name` among the interfaces seen.
fn note_name(seen: &mut StrMap<bool>, Ghost(lst): Ghost<Seq<Seq<char>>>, name: &str)
    requires
        old(seen).wf(),
        old(seen).view().dom() == lst.to_set(),
    ensures
        final(seen).wf(),
        final(seen).view().dom() == lst.push(name@).to_set(),
{
    seen.insert(crate::text::owned(name), true);
    proof {
        lst.lemma_push_to_set_commute(name@);
        assert(seen.view().dom() =~= lst.push(name@).to_set());
    }
}

/// Records the interface of endpoint text `s` where it is an endpoint of
/// node `k`.
fn note_endpoint(seen: &mut StrMap<bool>, Ghost(lst): Ghost<Seq<Seq<char>>>, s: &str, k: &str)
    requires
        old(seen).wf(),
        old(seen).view().dom() == lst.to_set(),
    ensures
        final(seen).wf(),
        final(seen).view().dom() == (lst + ep_iface(s@, k@)).to_set(),
{
    match EndpointRef::parse(s) {
        Some(ep) => {
            if str_eq(ep.node.as_str(), k) {
                note_name(seen, Ghost(lst), ep.iface.as_str());
                proof { assert(lst + ep_iface(s@, k@) =~= lst.push(ep.iface@)); }
            } else {
                proof { assert(lst + ep_iface(s@, k@) =~= lst); }
            }
        },
        None => {
            proof { assert(lst + ep_iface(s@, k@) =~= lst); }
        },
    }
}

/// The interfaces to bring up in node `i`, each once, in name order.
fn node_up_ifaces(t: &Topology, i: usize) -> (r: Vec<String>)
    requires
        i < t.nodes.keys().len(),
    ensures
        strs(r@) == sorted_of(up_list(*t, i as int).to_set()),
{
    let k = t.nodes.key_at(i);
    let node = t.nodes.value_at(i);
    let mut seen: StrMap<bool> = StrMap::new();
    let ghost mut lst: Seq<Seq<char>> = Seq::empty();
    proof { assert(seen.view().dom() =~= lst.to_set()); }
    note_name(&mut seen, Ghost(lst), "lo");
    proof { lst = lst.push("lo"@); assert(lst =~= seq!["lo"@]); }
    let mut j: usize = 0;
    while j < t.links.len()
        invariant
            seen.wf(),
            seen.view().dom() == lst.to_set(),
            j <= t.links@.len(),
            lst == seq!["lo"@] + link_ifaces_of(*t, k@, j as int),
        decreases t.links@.len() - j,
    {
        let link = &t.links[j];
        note_endpoint(&mut seen, Ghost(lst), link.endpoints[0].as_str(), k.as_str());
        proof { lst = lst + ep_iface(link.endpoints@[0]@, k@); }
        note_endpoint(&mut seen, Ghost(lst), link.endpoints[1].as_str(), k.as_str());
        proof {
            lst = lst + ep_iface(link.endpoints@[1]@, k@);
            assert(lst =~= seq!["lo"@] + link_ifaces_of(*t, k@, j + 1));
        }
        j = j + 1;
    }
    let ghost l1 = lst;
    let nets = t.networks.len();
    let mut a: usize = 0;
    while a < nets
        invariant
            seen.wf(),
            seen.view().dom() == lst.to_set(),
            nets == t.networks.keys().len(),
            a <= nets,
            lst == l1 + member_ifaces_of(*t, k@, a as int),
        decreases nets - a,
    {
        let net = t.networks.value_at(a);
        let ghost l2 = lst;
        let mut b: usize = 0;
        while b < net.members.len()
            invariant
                seen.wf(),
                seen.view().dom() == lst.to_set(),
                b <= net.members@.len(),
                lst == l2 + members_iface(net.members@, k@, b as int),
            decreases net.members@.len() - b,
        {
            note_endpoint(&mut seen, Ghost(lst), net.members[b].as_str(), k.as_str());
            proof {
                lst = lst + ep_iface(net.members@[b as int]@, k@);
                assert(lst =~= l2 + members_iface(net.members@, k@, b + 1));
            }
            b = b + 1;
        }
        proof { assert(lst =~= l1 + member_ifaces_of(*t, k@, a + 1)); }
        a = a + 1;
    }
    let ghost l3 = lst;
    if t.lab.mgmt_host_reachable && t.lab.mgmt_subnet.is_some() {
        note_name(&mut seen, Ghost(lst), "mgmt0");
        proof { lst = lst.push("mgmt0"@); assert(lst =~= l3 + seq!["mgmt0"@]); }
    } else {
        proof { assert(lst =~= l3 + Seq::<Seq<char>>::empty()); }
    }
    let ghost l4 = lst;
    let mut j: usize = 0;
    while j < node.macvlans.len()
        invariant
            seen.wf(),
            seen.view().dom() == lst.to_set(),
            j <= node.macvlans@.len(),
            lst == l4 + node.macvlans@.take(j as int).map_values(|m: MacvlanConfig| m.name@),
        decreases node.macvlans@.len() - j,
    {
        note_name(&mut seen, Ghost(lst), node.macvlans[j].name.as_str());
        proof {
            lst = lst.push(node.macvlans@[j as int].name@);
            assert(node.macvlans@.take(j + 1).map_values(|m: MacvlanConfig| m.name@)
                =~= node.macvlans@.take(j as int).map_values(|m: MacvlanConfig| m.name@).push(node.macvlans@[j as int].name@));
        }
        j = j + 1;
    }
    proof { assert(node.macvlans@.take(j as int) =~= node.macvlans@); }
    let ghost l5 = lst;
    let mut j: usize = 0;
    while j < node.ipvlans.len()
        invariant
            seen.wf(),
            seen.view().dom() == lst.to_set(),
            j <= node.ipvlans@.len(),
            lst == l5 + node.ipvlans@.take(j as int).map_values(|v: IpvlanConfig| v.name@),
        decreases node.ipvlans@.len() - j,
    {
        note_name(&mut seen, Ghost(lst), node.ipvlans[j].name.as_str());
        proof {
            lst = lst.push(node.ipvlans@[j as int].name@);
            assert(node.ipvlans@.take(j + 1).map_values(|v: IpvlanConfig| v.name@)
                =~= node.ipvlans@.take(j as int).map_values(|v: IpvlanConfig| v.name@).push(node.ipvlans@[j as int].name@));
        }
        j = j + 1;
    }
    proof { assert(node.ipvlans@.take(j as int) =~= node.ipvlans@); }
    let ghost l6 = lst;
    let mut j: usize = 0;
    while j < node.wifi.len()
        invariant
            seen.wf(),
            seen.view().dom() == lst.to_set(),
            j <= node.wifi@.len(),
            lst == l6 + node.wifi@.take(j as int).map_values(|w: WifiConfig| w.name@),
        decreases node.wifi@.len() - j,
    {
        note_name(&mut seen, Ghost(lst), node.wifi[j].name.as_str());
        proof {
            lst = lst.push(node.wifi@[j as int].name@);
            assert(node.wifi@.take(j + 1).map_values(|w: WifiConfig| w.name@)
                =~= node.wifi@.take(j as int).map_values(|w: WifiConfig| w.name@).push(node.wifi@[j as int].name@));
        }
        j = j + 1;
    }
    proof {
        assert(node.wifi@.take(j as int) =~= node.wifi@);
        assert(lst =~= up_list(*t, i as int));
        seen.lemma_keys_sorted_of();
    }
    let mut r: Vec<String> = Vec::new();
    let mut j: usize = 0;
    while j < seen.len()
        invariant
            j <= seen.keys().len(),
            strs(r@) == seen.keys().take(j as int),
        decreases seen.keys().len() - j,
    {
        let ghost before = r@;
        r.push(seen.key_at(j).clone());
        proof {
            assert(strs(r@) =~= strs(before).push(seen.keys()[j as int]));
            assert(seen.keys().take(j + 1) =~= seen.keys().take(j as int).push(seen.keys()[j as int]));
        }
        j = j + 1;
    }
    proof { assert(seen.keys().take(j as int) =~= seen.keys()); }
    r
}

/// Appends the bring-up op of every node.
fn push_up_ops(t: &Topology, ops: &mut Vec<Op>)
    ensures
        views(final(ops)@) == views(old(ops)@) + up_ops(*t, t.nodes.keys().len() as int),
{
    let ghost start = views(ops@);
    let len = t.nodes.len();
    let mut i: usize = 0;
    while i < len
        invariant
            len == t.nodes.keys().len(),
            i <= len,
            views(ops@) == start + up_ops(*t, i as int),
        decreases len - i,
    {
        let ifaces = node_up_ifaces(t, i);
        let op = Op::LinksUp { node: t.nodes.key_at(i).clone(), ifaces };
        let ghost before = ops@;
        ops.push(op);
        proof { assert(views(ops@) =~= views(before).push(op@)); }
        i = i + 1;
    }
}

/// Appends the sysctls op of every node that has sysctls.
fn push_sysctl_ops(t: &Topology, names: &DeployNames, ops: &mut Vec<Op>)
    requires
        t.wf(),
        names.covers(*t),
    ensures
        views(final(ops)@) == views(old(ops)@) + sysctl_ops(*t, *names, t.nodes.keys().len() as int),
{
    let ghost start = views(ops@);
    let len = t.nodes.len();
    let mut i: usize = 0;
    while i < len
        invariant
            t.wf(),
            names.covers(*t),
            len == t.nodes.keys().len(),
            i <= len,
            views(ops@) == start + sysctl_ops(*t, *names, i as int),
        decreases len - i,
    {
        proof { lemma_node_at(*t, i as int); }
        let k = t.nodes.key_at(i);
        match names.sysctls.get(k.as_str()) {
            Some(m) => {
                if !m.is_empty() {
                    let op = Op::Sysctls { node: k.clone(), entries: m.copy() };
                    let ghost before = ops@;
                    ops.push(op);
                    proof {
                        assert(views(ops@) =~= views(before).push(op@));
                        assert(views(ops@) =~= start + sysctl_ops(*t, *names, i + 1));
                    }
                } else {
                    proof { assert(views(ops@) =~= start + sysctl_ops(*t, *names, i + 1)); }
                }
            },
            None => {},
        }
        i = i + 1;
    }
}

/// Appends the DNS ops, where the lab writes hosts entries.
fn push_dns_ops(t: &Topology, names: &DeployNames, ops: &mut Vec<Op>)
    requires
        t.wf(),
        names.covers(*t),
    ensures
        views(final(ops)@) == views(old(ops)@) + dns_ops(*t, *names),
{
    if t.lab.dns != DnsMode::Hosts {
        proof { assert(views(ops@) =~= views(ops@) + Seq::<OpView>::empty()); }
        return;
    }
    let entries = generate_hosts_entries(t);
    proof { assert(entry_views(entries@).len() == entries@.len()); }
    if entries.len() == 0 {
        proof { assert(views(ops@) =~= views(ops@) + Seq::<OpView>::empty()); }
        return;
    }
    let ghost start = views(ops@);
    let first = Op::DnsInject { lab: t.lab.name.clone() };
    ops.push(first);
    proof { assert(views(ops@) =~= start.push(first@)); }
    let len = t.nodes.len();
    let mut i: usize = 0;
    while i < len
        invariant
            t.wf(),
            names.covers(*t),
            len == t.nodes.keys().len(),
            i <= len,
            views(ops@) == start.push(first@) + etc_ops(*t, *names, i as int),
        decreases len - i,
    {
        proof { lemma_node_at(*t, i as int); }
        let k = t.nodes.key_at(i);
        let node = t.nodes.value_at(i);
        if node.image.is_none() {
            let ns = match names.namespaces.get(k.as_str()) {
                Some(s) => s.clone(),
                None => String::new(),
            };
            let op = Op::DnsNetnsEtc { node: k.clone(), ns };
            let ghost before = ops@;
            ops.push(op);
            proof {
                assert(views(ops@) =~= views(before).push(op@));
                assert(views(ops@) =~= start.push(first@) + etc_ops(*t, *names, i + 1));
            }
        } else {
            proof { assert(views(ops@) =~= start.push(first@) + etc_ops(*t, *names, i + 1)); }
        }
        i = i + 1;
    }
    proof {
        assert(start.push(first@) + etc_ops(*t, *names, len as int)
            =~= start + (seq![first@] + etc_ops(*t, *names, len as int)));
    }
}

/// The topology part of a deploy plan (see [`topology_plan`]): creates
/// namespaces and containers, loads radios, sets up the management
/// bridge, the bridge networks and the veth links, moves host-side links
/// in, brings interfaces up, applies sysctls and writes DNS overlays.
/// Fails on the first endpoint that is not `node:interface`, the first
/// endpoint whose node does not exist, a management subnet that does not
/// parse, is not IPv4 or has too few host addresses.
pub fn plan_topology(topology: &Topology, dns_extra_hosts: &[String], names: &DeployNames) -> (r: Result<Vec<Op>, Error>)
    requires
        topology.wf(),
        names.covers(*topology),
        topology.nodes.keys().len() < u64::MAX,
    ensures
        match topology_plan(*topology, dns_extra_hosts@, *names) {
            Ok(s) => r matches Ok(v) && views(v@) == s,
            Err(f) => r matches Err(e) && plan_fails_as(e, f),
        },
{
    let mut ops: Vec<Op> = Vec::new();
    push_create_ops(topology, dns_extra_hosts, names, &mut ops);
    push_hwsim_ops(topology, names, &mut ops);
    push_mgmt_ops(topology, names, &mut ops)?;
    push_network_ops(topology, names, &mut ops)?;
    push_link_ops(topology, &mut ops)?;
    push_host_ops(topology, &mut ops);
    push_up_ops(topology, &mut ops);
    push_sysctl_ops(topology, names, &mut ops);
    push_dns_ops(topology, names, &mut ops);
    proof {
        assert(views(Seq::<Op>::empty()) =~= Seq::<OpView>::empty());
    }
    Ok(ops)
}


/// Link `i`'s veth pair, as the links' ops give it.
proof fn lemma_link_ops_at(t: Topology, n: int)
    requires
        0 <= n <= t.links@.len(),
        link_ops(t, n) is Ok,
    ensures
        link_ops(t, n)->Ok_0.len() == n,
        forall|i: int| 0 <= i < n ==> {
            let l = t.links@[i];
            &&& endpoint_parts(l.endpoints@[0]@) is Some
            &&& endpoint_parts(l.endpoints@[1]@) is Some
            &&& #[trigger] link_ops(t, n)->Ok_0[i] == OpView::CreateVeth {
                a: endpoint_parts(l.endpoints@[0]@)->0,
                b: endpoint_parts(l.endpoints@[1]@)->0,
                mtu: l.mtu,
            }
        },
    decreases n,
{
    if n > 0 {
        lemma_link_ops_at(t, n - 1);
        let s = link_ops(t, n - 1)->Ok_0;
        let o = link_op(t, n - 1)->Ok_0;
        assert(link_ops(t, n)->Ok_0 == s.push(o));
        assert forall|i: int| 0 <= i < n implies #[trigger] link_ops(t, n)->Ok_0[i] == s.push(o)[i] by {}
    }
}

/// Each link's veth pair is planned between its two endpoints with the
/// link's MTU.
pub proof fn lemma_plan_veth_per_link(t: Topology, extra: Seq<String>, n: DeployNames)
    ensures
        topology_plan(t, extra, n) matches Ok(s) ==> forall|i: int| 0 <= i < t.links@.len() ==> {
            let l = #[trigger] t.links@[i];
            &&& endpoint_parts(l.endpoints@[0]@) is Some
            &&& endpoint_parts(l.endpoints@[1]@) is Some
            &&& s.contains(OpView::CreateVeth {
                a: endpoint_parts(l.endpoints@[0]@)->0,
                b: endpoint_parts(l.endpoints@[1]@)->0,
                mtu: l.mtu,
            })
        },
{
    if let Ok(s) = topology_plan(t, extra, n) {
        let len = t.nodes.keys().len() as int;
        let m = mgmt_ops(t, n)->Ok_0;
        let w = network_ops(t, n)->Ok_0;
        let nl = t.links@.len() as int;
        let l = link_ops(t, nl)->Ok_0;
        lemma_link_ops_at(t, nl);
        let x = create_ops(t, extra, n, len) + hwsim_ops(t, n) + m + w;
        let rest = host_ops(t, len) + up_ops(t, len) + sysctl_ops(t, n, len) + dns_ops(t, n);
        assert(s =~= (x + l) + rest);
        assert forall|i: int| 0 <= i < t.links@.len() implies {
            let lk = #[trigger] t.links@[i];
            &&& endpoint_parts(lk.endpoints@[0]@) is Some
            &&& endpoint_parts(lk.endpoints@[1]@) is Some
            &&& s.contains(OpView::CreateVeth {
                a: endpoint_parts(lk.endpoints@[0]@)->0,
                b: endpoint_parts(lk.endpoints@[1]@)->0,
                mtu: lk.mtu,
            })
        } by {
            assert(l[i] == link_ops(t, nl)->Ok_0[i]);
            assert((x + l)[x.len() + i] == l[i]);
            assert(s[x.len() + i] == l[i]);
        }
    }
}

} // verus!
