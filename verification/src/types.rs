//! The topology data model: a lab, its reusable profiles, nodes, links,
//! bridge networks, per-endpoint impairments and rate limits.
//!
//! Every string-keyed table is a [`StrMap`], iterated in key order.
use vstd::prelude::*;
use crate::map::StrMap;
use crate::text::{before_first, after_first, to_chars, find_char, take_chars, skip_chars, string_from_chars};

verus! {

/// The characters of an optional string.
pub open spec fn ostr(o: Option<String>) -> Option<Seq<char>> {
    match o {
        Some(s) => Some(s@),
        None => None,
    }
}

/// The characters of each string of a vector.
pub open spec fn strs(v: Seq<String>) -> Seq<Seq<char>> {
    v.map_values(|s: String| s@)
}

/// How a lab computes static routes.
#[derive(Debug, Clone, Copy, PartialEq, Eq, Structural)]
pub enum RoutingMode {
    Manual,
    Auto,
    Frr,
}

/// Which container runtime deploys image nodes.
#[derive(Debug, Clone, Copy, PartialEq, Eq, Structural)]
pub enum ContainerRuntime {
    Auto,
    Docker,
    Podman,
}

/// How node names are made resolvable inside a lab.
#[derive(Debug, Clone, Copy, PartialEq, Eq, Structural)]
pub enum DnsMode {
    /// No name resolution is set up.
    Off,
    /// Every node's `/etc/hosts` lists the lab's nodes.
    Hosts,
}

/// Lab-wide settings.
#[derive(Debug, Clone)]
pub struct LabConfig {
    pub name: String,
    pub description: Option<String>,
    /// Namespace prefix; the lab name when unset.
    pub prefix: Option<String>,
    pub routing: RoutingMode,
    pub runtime: Option<ContainerRuntime>,
    /// IPv4 subnet (`address/prefix`) of the host-side management bridge.
    pub mgmt_subnet: Option<String>,
    /// Whether the host reaches the nodes over a management bridge.
    pub mgmt_host_reachable: bool,
    pub dns: DnsMode,
}

impl LabConfig {
    /// The namespace prefix in effect.
    pub open spec fn spec_prefix(&self) -> Seq<char> {
        match self.prefix {
            Some(p) => p@,
            None => self.name@,
        }
    }

    /// The namespace prefix in effect: `prefix`, or the lab name.
    pub fn prefix(&self) -> (p: &str)
        ensures
            p@ == self.spec_prefix(),
    {
        match &self.prefix {
            Some(p) => p.as_str(),
            None => self.name.as_str(),
        }
    }
}

/// A netem impairment on one endpoint.
#[derive(Debug, Clone)]
pub struct Impairment {
    pub delay: Option<String>,
    pub jitter: Option<String>,
    pub loss: Option<String>,
    pub rate: Option<String>,
    pub corrupt: Option<String>,
    pub reorder: Option<String>,
}

pub struct ImpairmentView {
    pub delay: Option<Seq<char>>,
    pub jitter: Option<Seq<char>>,
    pub loss: Option<Seq<char>>,
    pub rate: Option<Seq<char>>,
    pub corrupt: Option<Seq<char>>,
    pub reorder: Option<Seq<char>>,
}

impl View for Impairment {
    type V = ImpairmentView;

    open spec fn view(&self) -> ImpairmentView {
        ImpairmentView {
            delay: ostr(self.delay),
            jitter: ostr(self.jitter),
            loss: ostr(self.loss),
            rate: ostr(self.rate),
            corrupt: ostr(self.corrupt),
            reorder: ostr(self.reorder),
        }
    }
}

impl Impairment {
    pub fn empty() -> (i: Self)
        ensures
            i@ == (ImpairmentView {
                delay: None, jitter: None, loss: None, rate: None, corrupt: None, reorder: None,
            }),
    {
        Impairment { delay: None, jitter: None, loss: None, rate: None, corrupt: None, reorder: None }
    }
}

/// Egress/ingress rate limiting on one endpoint.
#[derive(Debug, Clone)]
pub struct RateLimit {
    pub egress: Option<String>,
    pub ingress: Option<String>,
    pub burst: Option<String>,
}

pub struct RateLimitView {
    pub egress: Option<Seq<char>>,
    pub ingress: Option<Seq<char>>,
    pub burst: Option<Seq<char>>,
}

impl View for RateLimit {
    type V = RateLimitView;

    open spec fn view(&self) -> RateLimitView {
        RateLimitView { egress: ostr(self.egress), ingress: ostr(self.ingress), burst: ostr(self.burst) }
    }
}

/// A static route: gateway, output device and metric.
#[derive(Debug, Clone)]
pub struct RouteConfig {
    pub via: Option<String>,
    pub dev: Option<String>,
    pub metric: Option<u32>,
}

pub struct RouteConfigView {
    pub via: Option<Seq<char>>,
    pub dev: Option<Seq<char>>,
    pub metric: Option<u32>,
}

impl View for RouteConfig {
    type V = RouteConfigView;

    open spec fn view(&self) -> RouteConfigView {
        RouteConfigView { via: ostr(self.via), dev: ostr(self.dev), metric: self.metric }
    }
}

/// A firewall rule: match expression and verdict.
#[derive(Debug, Clone)]
pub struct FirewallRule {
    pub match_expr: Option<String>,
    pub action: Option<String>,
}

/// A node's firewall: default policy and rules in order.
#[derive(Debug, Clone)]
pub struct FirewallConfig {
    pub policy: Option<String>,
    pub rules: Vec<FirewallRule>,
}

/// What a NAT rule does.
#[derive(Debug, Clone, Copy, PartialEq, Eq, Structural)]
pub enum NatAction {
    Masquerade,
    Snat,
    Dnat,
    /// A one-to-one translation, expanded into source and destination NAT
    /// rules before planning.
    Translate,
}

/// A NAT rule: the action, the source and destination CIDRs it matches, and
/// the address (and port) it translates to.
#[derive(Debug, Clone)]
pub struct NatRule {
    pub action: NatAction,
    pub src: Option<String>,
    pub dst: Option<String>,
    pub target: Option<String>,
    pub target_port: Option<u16>,
}

/// A node's NAT rules, in order.
#[derive(Debug, Clone)]
pub struct NatConfig {
    pub rules: Vec<NatRule>,
}

pub struct FirewallView {
    pub policy: Option<Seq<char>>,
    /// Each rule as (match expression, action).
    pub rules: Seq<(Option<Seq<char>>, Option<Seq<char>>)>,
}

impl View for FirewallConfig {
    type V = FirewallView;

    open spec fn view(&self) -> FirewallView {
        FirewallView {
            policy: ostr(self.policy),
            rules: self.rules@.map_values(|r: FirewallRule| (ostr(r.match_expr), ostr(r.action))),
        }
    }
}

/// A process to run in a node.
#[derive(Debug, Clone)]
pub struct ExecConfig {
    pub cmd: Vec<String>,
    pub background: bool,
}

/// Forwarding mode of a macvlan.
#[derive(Debug, Clone, Copy, PartialEq, Eq, Structural)]
pub enum MacvlanMode {
    Bridge,
    Private,
    Vepa,
    Passthru,
}

/// A host-side macvlan on `parent`, moved into a node as `name`.
#[derive(Debug, Clone)]
pub struct MacvlanConfig {
    pub name: String,
    pub parent: String,
    pub mode: MacvlanMode,
    pub addresses: Vec<String>,
}

/// Forwarding mode of an ipvlan.
#[derive(Debug, Clone, Copy, PartialEq, Eq, Structural)]
pub enum IpvlanMode {
    L2,
    L3,
    L3S,
}

/// A host-side ipvlan on `parent`, moved into a node as `name`.
#[derive(Debug, Clone)]
pub struct IpvlanConfig {
    pub name: String,
    pub parent: String,
    pub mode: IpvlanMode,
    pub addresses: Vec<String>,
}

/// Role of a simulated wireless interface.
#[derive(Debug, Clone, Copy, PartialEq, Eq, Structural)]
pub enum WifiMode {
    Ap,
    Station,
    Mesh,
}

/// A simulated wireless interface of a node.
#[derive(Debug, Clone)]
pub struct WifiConfig {
    pub name: String,
    pub mode: WifiMode,
    pub mesh_id: Option<String>,
    pub channel: Option<u32>,
}

/// An explicitly declared interface (vxlan, bond, dummy, loopback ...).
#[derive(Debug, Clone)]
pub struct InterfaceConfig {
    pub kind: Option<String>,
    pub addresses: Vec<String>,
    pub vni: Option<u32>,
    pub local: Option<String>,
    pub remote: Option<String>,
    pub port: Option<u16>,
    pub mtu: Option<u32>,
}

pub struct InterfaceView {
    pub kind: Option<Seq<char>>,
    pub addresses: Seq<Seq<char>>,
    pub vni: Option<u32>,
    pub local: Option<Seq<char>>,
    pub remote: Option<Seq<char>>,
    pub port: Option<u16>,
    pub mtu: Option<u32>,
}

impl View for InterfaceConfig {
    type V = InterfaceView;

    open spec fn view(&self) -> InterfaceView {
        InterfaceView {
            kind: ostr(self.kind),
            addresses: strs(self.addresses@),
            vni: self.vni,
            local: ostr(self.local),
            remote: ostr(self.remote),
            port: self.port,
            mtu: self.mtu,
        }
    }
}

/// A VRF: routing table, enslaved interfaces and routes.
#[derive(Debug, Clone)]
pub struct VrfConfig {
    pub table: u32,
    pub interfaces: Vec<String>,
    pub routes: StrMap<RouteConfig>,
}

/// A WireGuard interface.
#[derive(Debug, Clone)]
pub struct WireguardConfig {
    /// Base64 key, or `"auto"` / unset to generate one.
    pub private_key: Option<String>,
    pub listen_port: Option<u16>,
    /// Firewall mark on the interface's outgoing packets.
    pub fwmark: Option<u32>,
    pub addresses: Vec<String>,
    pub peers: Vec<String>,
}

pub struct WireguardView {
    pub private_key: Option<Seq<char>>,
    pub listen_port: Option<u16>,
    pub fwmark: Option<u32>,
    pub addresses: Seq<Seq<char>>,
    pub peers: Seq<Seq<char>>,
}

impl View for WireguardConfig {
    type V = WireguardView;

    open spec fn view(&self) -> WireguardView {
        WireguardView {
            private_key: ostr(self.private_key),
            listen_port: self.listen_port,
            fwmark: self.fwmark,
            addresses: strs(self.addresses@),
            peers: strs(self.peers@),
        }
    }
}

/// A reusable bundle of node settings.
#[derive(Debug, Clone)]
pub struct Profile {
    pub sysctls: StrMap<String>,
    pub firewall: Option<FirewallConfig>,
}

/// A lab node: a network namespace, or a container when `image` is set.
#[derive(Debug, Clone)]
pub struct Node {
    pub profile: Option<String>,
    pub image: Option<String>,
    /// Image pull policy of a container node.
    pub pull: Option<String>,
    pub cmd: Option<Vec<String>>,
    pub env: Option<StrMap<String>>,
    pub volumes: Option<Vec<String>>,
    pub cpu: Option<String>,
    pub memory: Option<String>,
    pub privileged: bool,
    pub cap_add: Vec<String>,
    pub cap_drop: Vec<String>,
    pub entrypoint: Option<String>,
    pub hostname: Option<String>,
    pub workdir: Option<String>,
    pub labels: Vec<String>,
    pub depends_on: Vec<String>,
    pub sysctls: StrMap<String>,
    pub interfaces: StrMap<InterfaceConfig>,
    pub routes: StrMap<RouteConfig>,
    pub firewall: Option<FirewallConfig>,
    pub execs: Vec<ExecConfig>,
    pub vrfs: StrMap<VrfConfig>,
    pub wireguard: StrMap<WireguardConfig>,
    pub macvlans: Vec<MacvlanConfig>,
    pub ipvlans: Vec<IpvlanConfig>,
    pub wifi: Vec<WifiConfig>,
}

/// A point-to-point veth link between two `node:iface` endpoints.
#[derive(Debug, Clone)]
pub struct Link {
    pub endpoints: [String; 2],
    pub addresses: Option<[String; 2]>,
    pub mtu: Option<u32>,
}

/// A VLAN declared on a bridge network.
#[derive(Debug, Clone)]
pub struct VlanConfig {
    pub name: Option<String>,
}

/// A member port of a bridge network.
#[derive(Debug, Clone)]
pub struct PortConfig {
    pub interface: Option<String>,
    pub vlans: Vec<u16>,
    pub tagged: Option<bool>,
    pub pvid: Option<u16>,
    pub untagged: Option<bool>,
    pub addresses: Vec<String>,
}

/// A per-pair impairment `src -- dst` inside a bridge network.
#[derive(Debug, Clone)]
pub struct NetworkImpairment {
    pub src: String,
    pub dst: String,
    pub delay: Option<String>,
    pub jitter: Option<String>,
    pub loss: Option<String>,
    pub rate: Option<String>,
    pub corrupt: Option<String>,
    pub reorder: Option<String>,
    /// Rate cap on the pair's traffic.
    pub rate_cap: Option<String>,
}

pub struct NetworkImpairmentView {
    pub src: Seq<char>,
    pub dst: Seq<char>,
    pub delay: Option<Seq<char>>,
    pub jitter: Option<Seq<char>>,
    pub loss: Option<Seq<char>>,
    pub rate: Option<Seq<char>>,
    pub corrupt: Option<Seq<char>>,
    pub reorder: Option<Seq<char>>,
    pub rate_cap: Option<Seq<char>>,
}

impl View for NetworkImpairment {
    type V = NetworkImpairmentView;

    open spec fn view(&self) -> NetworkImpairmentView {
        NetworkImpairmentView {
            src: self.src@,
            dst: self.dst@,
            delay: ostr(self.delay),
            jitter: ostr(self.jitter),
            loss: ostr(self.loss),
            rate: ostr(self.rate),
            corrupt: ostr(self.corrupt),
            reorder: ostr(self.reorder),
            rate_cap: ostr(self.rate_cap),
        }
    }
}

/// A shared L2 segment (bridge).
#[derive(Debug, Clone)]
pub struct Network {
    pub kind: Option<String>,
    pub vlan_filtering: Option<bool>,
    pub mtu: Option<u32>,
    pub subnet: Option<String>,
    pub members: Vec<String>,
    /// VLANs by id, in increasing id order, each id once.
    pub vlans: Vec<(u16, VlanConfig)>,
    /// Port settings by `node` or `node:iface`.
    pub ports: StrMap<PortConfig>,
    pub impairments: Vec<NetworkImpairment>,
}

/// A whole lab topology.
#[derive(Debug, Clone)]
pub struct Topology {
    pub lab: LabConfig,
    pub profiles: StrMap<Profile>,
    pub nodes: StrMap<Node>,
    pub links: Vec<Link>,
    pub networks: StrMap<Network>,
    pub impairments: StrMap<Impairment>,
    pub rate_limits: StrMap<RateLimit>,
}

/// The characters of each string value of a string-valued table.
pub open spec fn str_vals(m: Map<Seq<char>, String>) -> Map<Seq<char>, Seq<char>> {
    m.map_values(|s: String| s@)
}

impl VrfConfig {
    pub open spec fn wf(&self) -> bool {
        self.routes.wf()
    }

    pub open spec fn blank(&self) -> bool {
        &&& self.table == 0
        &&& self.interfaces@.len() == 0
        &&& self.routes.keys().len() == 0
    }

    pub fn empty() -> (r: Self)
        ensures
            r.wf(),
            r.blank(),
    {
        VrfConfig { table: 0, interfaces: Vec::new(), routes: StrMap::new() }
    }
}

impl Profile {
    pub open spec fn wf(&self) -> bool {
        self.sysctls.wf()
    }

    pub open spec fn blank(&self) -> bool {
        self.sysctls.keys().len() == 0 && self.firewall is None
    }

    pub fn empty() -> (r: Self)
        ensures
            r.wf(),
            r.blank(),
    {
        Profile { sysctls: StrMap::new(), firewall: None }
    }
}

impl Node {
    /// Every field unset or empty.
    pub open spec fn blank(&self) -> bool {
        &&& self.profile is None
        &&& self.image is None
        &&& self.cmd is None
        &&& self.env is None
        &&& self.volumes is None
        &&& self.cpu is None
        &&& self.memory is None
        &&& !self.privileged
        &&& self.cap_add@.len() == 0
        &&& self.cap_drop@.len() == 0
        &&& self.entrypoint is None
        &&& self.hostname is None
        &&& self.workdir is None
        &&& self.labels@.len() == 0
        &&& self.depends_on@.len() == 0
        &&& self.sysctls.keys().len() == 0
        &&& self.interfaces.keys().len() == 0
        &&& self.routes.keys().len() == 0
        &&& self.firewall is None
        &&& self.execs@.len() == 0
        &&& self.vrfs.keys().len() == 0
        &&& self.wireguard.keys().len() == 0
        &&& self.pull is None
        &&& self.macvlans@.len() == 0
        &&& self.ipvlans@.len() == 0
        &&& self.wifi@.len() == 0
    }

    pub fn empty() -> (r: Self)
        ensures
            r.wf(),
            r.blank(),
    {
        let r = Node {
            profile: None,
            image: None,
            cmd: None,
            env: None,
            volumes: None,
            cpu: None,
            memory: None,
            privileged: false,
            cap_add: Vec::new(),
            cap_drop: Vec::new(),
            entrypoint: None,
            hostname: None,
            workdir: None,
            labels: Vec::new(),
            depends_on: Vec::new(),
            sysctls: StrMap::new(),
            interfaces: StrMap::new(),
            routes: StrMap::new(),
            firewall: None,
            execs: Vec::new(),
            vrfs: StrMap::new(),
            wireguard: StrMap::new(),
            pull: None,
            macvlans: Vec::new(),
            ipvlans: Vec::new(),
            wifi: Vec::new(),
        };
        proof { r.vrfs.lemma_view(); }
        r
    }

    pub open spec fn wf(&self) -> bool {
        &&& self.sysctls.wf()
        &&& self.interfaces.wf()
        &&& self.routes.wf()
        &&& self.vrfs.wf()
        &&& self.wireguard.wf()
        &&& (self.env matches Some(e) ==> e.wf())
        &&& forall|k: Seq<char>| #[trigger] self.vrfs.view().contains_key(k) ==> self.vrfs.view()[k].wf()
    }
}

/// Each VLAN id occurs once.
pub open spec fn vids_unique(v: Seq<(u16, VlanConfig)>) -> bool {
    forall|i: int, j: int| #![trigger v[i], v[j]] 0 <= i < j < v.len() ==> v[i].0 != v[j].0
}

/// The VLAN table as a map from id to settings.
pub open spec fn vid_map(v: Seq<(u16, VlanConfig)>) -> Map<u16, VlanConfig> {
    Map::new(
        |k: u16| exists|i: int| 0 <= i < v.len() && v[i].0 == k,
        |k: u16| v[choose|i: int| 0 <= i < v.len() && v[i].0 == k].1,
    )
}

/// Sets the settings of VLAN `vid`, replacing any previous entry.
pub fn set_vlan(v: &mut Vec<(u16, VlanConfig)>, vid: u16, cfg: VlanConfig)
    requires
        vids_unique(old(v)@),
    ensures
        vids_unique(final(v)@),
        vid_map(final(v)@) == vid_map(old(v)@).insert(vid, cfg),
{
    let ghost o = v@;
    let mut i: usize = 0;
    while i < v.len()
        invariant
            i <= v.len(),
            v@ == o,
            o == old(v)@,
            vids_unique(o),
            forall|j: int| 0 <= j < i ==> o[j].0 != vid,
        decreases v.len() - i,
    {
        if v[i].0 == vid {
            v.set(i, (vid, cfg));
            proof {
                let n = v@;
                assert forall|a: int, b: int| #![trigger n[a], n[b]] 0 <= a < b < n.len() implies
                    n[a].0 != n[b].0 by {
                    assert(o[a].0 == n[a].0 && o[b].0 == n[b].0);
                }
                let m1 = vid_map(n);
                let m2 = vid_map(o).insert(vid, cfg);
                assert forall|k: u16| m1.contains_key(k) == #[trigger] m2.contains_key(k) by {
                    if m2.contains_key(k) && k != vid {
                        let j = choose|j: int| 0 <= j < o.len() && o[j].0 == k;
                        assert(n[j].0 == k);
                    }
                    if m1.contains_key(k) {
                        let j = choose|j: int| 0 <= j < n.len() && n[j].0 == k;
                        assert(o[j].0 == k);
                    }
                    assert(n[i as int].0 == vid);
                }
                assert forall|k: u16| #[trigger] m1.contains_key(k) implies m1[k] == m2[k] by {
                    let j = choose|j: int| 0 <= j < n.len() && n[j].0 == k;
                    if k == vid {
                        assert(j == i);
                    } else {
                        let j2 = choose|j2: int| 0 <= j2 < o.len() && o[j2].0 == k;
                        assert(j2 == j);
                    }
                }
                assert(m1 =~= m2);
            }
            return;
        }
        i = i + 1;
    }
    v.push((vid, cfg));
    proof {
        let n = v@;
        assert(n[o.len() as int] == (vid, cfg));
        assert forall|a: int, b: int| #![trigger n[a], n[b]] 0 <= a < b < n.len() implies
            n[a].0 != n[b].0 by {
            if b < o.len() {
                assert(o[a].0 != o[b].0);
            }
        }
        let m1 = vid_map(n);
        let m2 = vid_map(o).insert(vid, cfg);
        assert forall|k: u16| m1.contains_key(k) == #[trigger] m2.contains_key(k) by {
            if m2.contains_key(k) && k != vid {
                let j = choose|j: int| 0 <= j < o.len() && o[j].0 == k;
                assert(n[j].0 == k);
            }
            if m1.contains_key(k) {
                let j = choose|j: int| 0 <= j < n.len() && n[j].0 == k;
                if j < o.len() { assert(o[j].0 == k); }
            }
            assert(n[o.len() as int].0 == vid);
        }
        assert forall|k: u16| #[trigger] m1.contains_key(k) implies m1[k] == m2[k] by {
            let j = choose|j: int| 0 <= j < n.len() && n[j].0 == k;
            if k == vid {
                assert(j == o.len());
            } else {
                let j2 = choose|j2: int| 0 <= j2 < o.len() && o[j2].0 == k;
                assert(n[j2] == o[j2]);
                assert(j2 == j);
            }
        }
        assert(m1 =~= m2);
    }
}

impl Network {
    pub open spec fn blank(&self) -> bool {
        &&& self.kind is None
        &&& self.vlan_filtering is None
        &&& self.mtu is None
        &&& self.subnet is None
        &&& self.members@.len() == 0
        &&& self.vlans@.len() == 0
        &&& self.ports.keys().len() == 0
        &&& self.impairments@.len() == 0
    }

    pub fn empty() -> (r: Self)
        ensures
            r.wf(),
            r.blank(),
    {
        Network {
            kind: None,
            vlan_filtering: None,
            mtu: None,
            subnet: None,
            members: Vec::new(),
            vlans: Vec::new(),
            ports: StrMap::new(),
            impairments: Vec::new(),
        }
    }

    pub open spec fn wf(&self) -> bool {
        &&& self.ports.wf()
        &&& vids_unique(self.vlans@)
    }

    /// The VLAN declared with id `vid`, if any.
    pub fn vlan(&self, vid: u16) -> (r: Option<&VlanConfig>)
        ensures
            match r {
                Some(c) => exists|i: int| 0 <= i < self.vlans@.len() && self.vlans@[i].0 == vid
                    && self.vlans@[i].1 == *c,
                None => forall|i: int| 0 <= i < self.vlans@.len() ==> self.vlans@[i].0 != vid,
            },
    {
        let mut i: usize = 0;
        while i < self.vlans.len()
            invariant
                i <= self.vlans.len(),
                forall|j: int| 0 <= j < i ==> self.vlans@[j].0 != vid,
            decreases self.vlans.len() - i,
        {
            if self.vlans[i].0 == vid {
                return Some(&self.vlans[i].1);
            }
            i = i + 1;
        }
        None
    }
}

impl Topology {
    /// An empty lab named `name` with manual routing.
    pub fn named(name: String) -> (t: Self)
        ensures
            t.wf(),
            t.lab.name == name,
            t.lab.description is None,
            t.lab.prefix is None,
            t.lab.routing == RoutingMode::Manual,
            t.lab.runtime is None,
            t.lab.mgmt_subnet is None,
            !t.lab.mgmt_host_reachable,
            t.lab.dns == DnsMode::Off,
            t.profiles.keys().len() == 0,
            t.nodes.keys().len() == 0,
            t.links@.len() == 0,
            t.networks.keys().len() == 0,
            t.impairments.keys().len() == 0,
            t.rate_limits.keys().len() == 0,
    {
        let t = Topology {
            lab: LabConfig {
                name,
                description: None,
                prefix: None,
                routing: RoutingMode::Manual,
                runtime: None,
                mgmt_subnet: None,
                mgmt_host_reachable: false,
                dns: DnsMode::Off,
            },
            profiles: StrMap::new(),
            nodes: StrMap::new(),
            links: Vec::new(),
            networks: StrMap::new(),
            impairments: StrMap::new(),
            rate_limits: StrMap::new(),
        };
        proof {
            t.profiles.lemma_view();
            t.nodes.lemma_view();
            t.networks.lemma_view();
        }
        t
    }

    /// Every table of the topology, and of each node, profile and network,
    /// is well formed.
    pub open spec fn wf(&self) -> bool {
        &&& self.profiles.wf()
        &&& self.nodes.wf()
        &&& self.networks.wf()
        &&& self.impairments.wf()
        &&& self.rate_limits.wf()
        &&& forall|k: Seq<char>| #[trigger] self.profiles.view().contains_key(k) ==> self.profiles.view()[k].wf()
        &&& forall|k: Seq<char>| #[trigger] self.nodes.view().contains_key(k) ==> self.nodes.view()[k].wf()
        &&& forall|k: Seq<char>| #[trigger] self.networks.view().contains_key(k) ==> self.networks.view()[k].wf()
    }
}

} // verus!

verus! {

/// A copy of an optional string.
pub fn copy_opt(o: &Option<String>) -> (r: Option<String>)
    ensures
        r == *o,
{
    match o {
        Some(s) => Some(s.clone()),
        None => None,
    }
}

impl Impairment {
    /// An identical copy.
    pub fn copy(&self) -> (r: Self)
        ensures
            r == *self,
    {
        Impairment {
            delay: copy_opt(&self.delay),
            jitter: copy_opt(&self.jitter),
            loss: copy_opt(&self.loss),
            rate: copy_opt(&self.rate),
            corrupt: copy_opt(&self.corrupt),
            reorder: copy_opt(&self.reorder),
        }
    }
}

impl RateLimit {
    /// An identical copy.
    pub fn copy(&self) -> (r: Self)
        ensures
            r == *self,
    {
        RateLimit { egress: copy_opt(&self.egress), ingress: copy_opt(&self.ingress), burst: copy_opt(&self.burst) }
    }
}

impl RouteConfig {
    /// An identical copy.
    pub fn copy(&self) -> (r: Self)
        ensures
            r == *self,
    {
        RouteConfig { via: copy_opt(&self.via), dev: copy_opt(&self.dev), metric: self.metric }
    }
}

impl NetworkImpairment {
    /// An identical copy.
    pub fn copy(&self) -> (r: Self)
        ensures
            r == *self,
    {
        NetworkImpairment {
            src: self.src.clone(),
            dst: self.dst.clone(),
            delay: copy_opt(&self.delay),
            jitter: copy_opt(&self.jitter),
            loss: copy_opt(&self.loss),
            rate: copy_opt(&self.rate),
            corrupt: copy_opt(&self.corrupt),
            reorder: copy_opt(&self.reorder),
            rate_cap: copy_opt(&self.rate_cap),
        }
    }
}

impl Link {
    /// The endpoint pair as characters.
    pub open spec fn ends(&self) -> Seq<Seq<char>> {
        self.endpoints@.map_values(|s: String| s@)
    }

    /// An identical copy.
    pub fn copy(&self) -> (r: Self)
        ensures
            r == *self,
    {
        broadcast use vstd::array::group_array_axioms;
        let e = [self.endpoints[0].clone(), self.endpoints[1].clone()];
        assert(e =~= self.endpoints);
        let a = match &self.addresses {
            Some(a) => {
                let c = [a[0].clone(), a[1].clone()];
                assert(c =~= *a);
                Some(c)
            },
            None => None,
        };
        Link { endpoints: e, addresses: a, mtu: self.mtu }
    }

    /// Whether both links join the same endpoint pair, in the same order.
    pub fn same_ends(&self, other: &Link) -> (b: bool)
        ensures
            b == (self.ends() == other.ends()),
    {
        broadcast use vstd::array::group_array_axioms;
        let r = crate::text::str_eq(self.endpoints[0].as_str(), other.endpoints[0].as_str())
            && crate::text::str_eq(self.endpoints[1].as_str(), other.endpoints[1].as_str());
        assert(self.endpoints@.len() == 2 && other.endpoints@.len() == 2);
        if r {
            assert(self.ends() =~= other.ends());
        } else {
            assert(self.ends()[0] != other.ends()[0] || self.ends()[1] != other.ends()[1]);
        }
        r
    }
}

/// A `node:interface` endpoint reference.
#[derive(Debug, Clone, PartialEq, Eq)]
pub struct EndpointRef {
    pub node: String,
    pub iface: String,
}

/// The node and interface named by `node:interface` text: split at the
/// first colon, both parts non-empty.
pub open spec fn endpoint_parts(s: Seq<char>) -> Option<(Seq<char>, Seq<char>)> {
    if s.contains(':') && before_first(s, ':').len() > 0 && after_first(s, ':').len() > 0 {
        Some((before_first(s, ':'), after_first(s, ':')))
    } else {
        None
    }
}

impl EndpointRef {
    /// Parse `node:interface`.
    pub fn parse(s: &str) -> (r: Option<EndpointRef>)
        ensures
            match endpoint_parts(s@) {
                Some((n, i)) => r matches Some(e) && e.node@ == n && e.iface@ == i,
                None => r is None,
            },
    {
        let cs = to_chars(s);
        match find_char(cs.as_slice(), ':') {
            Some(i) => {
                assert(i < cs@.len());
                if i == 0 || i == cs.len() - 1 {
                    return None;
                }
                let node = take_chars(cs.as_slice(), i);
                let iface = skip_chars(cs.as_slice(), i + 1);
                Some(EndpointRef {
                    node: string_from_chars(node.as_slice()),
                    iface: string_from_chars(iface.as_slice()),
                })
            },
            None => None,
        }
    }
}

} // verus!
