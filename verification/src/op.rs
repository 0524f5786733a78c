//! Vocabulary of deploy plans: namespace references, the stages a plan
//! runs in, and the operations a plan is made of, with the identity that
//! pairs an operation with its inverse.
use vstd::prelude::*;
use crate::container::{CreateOpts, CreateOptsView, copy_strs, copy_pairs, strs_eq, pairs_eq, str_maps_eq, pair_strs};
use crate::map::StrMap;
use crate::text::{str_eq, opt_str_eq, push_str, push_dec, dec};
use crate::types::{
    ostr, strs, copy_opt, EndpointRef, ExecConfig, Impairment, ImpairmentView, RateLimit, RateLimitView,
    MacvlanConfig, MacvlanMode, IpvlanConfig, IpvlanMode, WifiConfig, WifiMode,
};

verus! {

/// Which network namespace an operation targets.
#[derive(Debug, Clone, PartialEq, Eq)]
pub enum NsRef {
    /// The root (host) network namespace — the mgmt bridge lives here.
    Root,
    /// A named namespace under `/var/run/netns/`.
    Named { name: String },
    /// A container node: its network namespace is `/proc/<pid>/ns/net`.
    Container { id: String, pid: u32 },
}

impl NsRef {
    /// `/var/run/netns/<name>` name for a bare namespace node.
    pub fn name(&self) -> (r: Option<&str>)
        ensures
            match self {
                NsRef::Named { name } => r matches Some(s) && s@ == name@,
                _ => r is None,
            },
    {
        match self {
            NsRef::Named { name } => Some(name.as_str()),
            _ => None,
        }
    }

    /// Container id for a container node.
    pub fn container_id(&self) -> (r: Option<&str>)
        ensures
            match self {
                NsRef::Container { id, .. } => r matches Some(s) && s@ == id@,
                _ => r is None,
            },
    {
        match self {
            NsRef::Container { id, .. } => Some(id.as_str()),
            _ => None,
        }
    }
}

/// Deploy stages, in execution order. A plan is sorted by stage; a
/// rollback / removal walks stages in reverse.
#[derive(Debug, Clone, Copy, PartialEq, Eq, PartialOrd, Ord, Hash)]
pub enum Stage {
    /// Namespaces and containers.
    Namespaces,
    /// mac80211_hwsim load + PHY moves.
    Hwsim,
    /// Host-reachable mgmt bridge + per-node veth peers.
    MgmtBridge,
    /// Bridge networks (mgmt namespace, bridges, member veths, VLANs).
    Networks,
    /// Point-to-point veth pairs.
    Links,
    /// Host-side macvlan/ipvlan moved into namespaces.
    HostLinks,
    /// Bring created interfaces up.
    LinksUp,
    /// Per-node sysctls.
    Sysctls,
    /// Declarative per-node stack (links/addresses/routes, nftables, WireGuard).
    Stack,
    /// Routes in non-main tables (VRF).
    Routes,
    /// Traffic control: netem, per-pair impairments, rate limits.
    Tc,
    /// /etc/hosts and per-namespace /etc overlays.
    Dns,
    /// Background processes and healthchecks.
    Processes,
    /// hostapd / wpa_supplicant / mesh join.
    Wifi,
}

/// Bridge-port VLAN settings for one network member.
#[derive(Debug, Clone, PartialEq, Eq)]
pub struct PortVlans {
    pub vlans: Vec<u16>,
    pub pvid: Option<u16>,
    pub untagged: bool,
}

/// Outcome of reconciling a running lab to a desired topology.
#[derive(Debug, Clone, Default)]
pub struct ApplyReport {
    /// Ops executed (removals + additions/changes).
    pub ops: usize,
    /// Of which removals.
    pub removed: usize,
    /// One-line descriptions, in execution order.
    pub applied: Vec<String>,
}


// ─── Stage order ────────────────────────────────────────────────────

/// Position of a stage in execution order.
pub open spec fn stage_rank(s: Stage) -> int {
    match s {
        Stage::Namespaces => 0,
        Stage::Hwsim => 1,
        Stage::MgmtBridge => 2,
        Stage::Networks => 3,
        Stage::Links => 4,
        Stage::HostLinks => 5,
        Stage::LinksUp => 6,
        Stage::Sysctls => 7,
        Stage::Stack => 8,
        Stage::Routes => 9,
        Stage::Tc => 10,
        Stage::Dns => 11,
        Stage::Processes => 12,
        Stage::Wifi => 13,
    }
}

/// Number of stages.
pub const STAGE_COUNT: u8 = 14;

/// The name a stage is printed with.
pub open spec fn stage_name(s: Stage) -> Seq<char> {
    match s {
        Stage::Namespaces => "Namespaces"@,
        Stage::Hwsim => "Hwsim"@,
        Stage::MgmtBridge => "MgmtBridge"@,
        Stage::Networks => "Networks"@,
        Stage::Links => "Links"@,
        Stage::HostLinks => "HostLinks"@,
        Stage::LinksUp => "LinksUp"@,
        Stage::Sysctls => "Sysctls"@,
        Stage::Stack => "Stack"@,
        Stage::Routes => "Routes"@,
        Stage::Tc => "Tc"@,
        Stage::Dns => "Dns"@,
        Stage::Processes => "Processes"@,
        Stage::Wifi => "Wifi"@,
    }
}

impl Stage {
    /// Position in execution order (`Namespaces` first).
    pub fn rank(self) -> (r: u8)
        ensures
            r == stage_rank(self),
            r < STAGE_COUNT,
    {
        match self {
            Stage::Namespaces => 0,
            Stage::Hwsim => 1,
            Stage::MgmtBridge => 2,
            Stage::Networks => 3,
            Stage::Links => 4,
            Stage::HostLinks => 5,
            Stage::LinksUp => 6,
            Stage::Sysctls => 7,
            Stage::Stack => 8,
            Stage::Routes => 9,
            Stage::Tc => 10,
            Stage::Dns => 11,
            Stage::Processes => 12,
            Stage::Wifi => 13,
        }
    }

    /// The printed name of the stage.
    pub fn name(self) -> (r: &'static str)
        ensures
            r@ == stage_name(self),
    {
        match self {
            Stage::Namespaces => "Namespaces",
            Stage::Hwsim => "Hwsim",
            Stage::MgmtBridge => "MgmtBridge",
            Stage::Networks => "Networks",
            Stage::Links => "Links",
            Stage::HostLinks => "HostLinks",
            Stage::LinksUp => "LinksUp",
            Stage::Sysctls => "Sysctls",
            Stage::Stack => "Stack",
            Stage::Routes => "Routes",
            Stage::Tc => "Tc",
            Stage::Dns => "Dns",
            Stage::Processes => "Processes",
            Stage::Wifi => "Wifi",
        }
    }
}

// ─── Routes in non-main tables ──────────────────────────────────────

/// One route in a non-main table, fully resolved so the delete can replay
/// exactly what the add declared. `dest` and `via` are address texts.
#[derive(Debug, Clone)]
pub struct RouteSpec {
    pub dest: String,
    pub prefix: u8,
    pub table: u32,
    pub via: Option<String>,
    pub dev: Option<String>,
    pub metric: Option<u32>,
}

pub struct RouteSpecView {
    pub dest: Seq<char>,
    pub prefix: u8,
    pub table: u32,
    pub via: Option<Seq<char>>,
    pub dev: Option<Seq<char>>,
    pub metric: Option<u32>,
}

impl View for RouteSpec {
    type V = RouteSpecView;

    open spec fn view(&self) -> RouteSpecView {
        RouteSpecView {
            dest: self.dest@,
            prefix: self.prefix,
            table: self.table,
            via: ostr(self.via),
            dev: ostr(self.dev),
            metric: self.metric,
        }
    }
}

/// `dest/prefix table T`, then ` via G`, ` dev D`, ` metric M` where set.
pub open spec fn route_text(r: RouteSpecView) -> Seq<char> {
    let base = r.dest + "/"@ + dec(r.prefix as nat) + " table "@ + dec(r.table as nat);
    let with_via = match r.via { Some(g) => base + " via "@ + g, None => base };
    let with_dev = match r.dev { Some(d) => with_via + " dev "@ + d, None => with_via };
    match r.metric { Some(m) => with_dev + " metric "@ + dec(m as nat), None => with_dev }
}

impl RouteSpec {
    /// The route as text (see [`route_text`]).
    pub fn to_text(&self) -> (s: String)
        ensures
            s@ == route_text(self@),
    {
        let mut s = String::new();
        push_str(&mut s, self.dest.as_str());
        push_str(&mut s, "/");
        push_dec(&mut s, self.prefix as u64);
        push_str(&mut s, " table ");
        push_dec(&mut s, self.table as u64);
        if let Some(g) = &self.via {
            push_str(&mut s, " via ");
            push_str(&mut s, g.as_str());
        }
        if let Some(d) = &self.dev {
            push_str(&mut s, " dev ");
            push_str(&mut s, d.as_str());
        }
        if let Some(m) = self.metric {
            push_str(&mut s, " metric ");
            push_dec(&mut s, m as u64);
        }
        s
    }

    /// An identical copy.
    pub fn copy(&self) -> (r: Self)
        ensures
            r == *self,
    {
        RouteSpec {
            dest: self.dest.clone(),
            prefix: self.prefix,
            table: self.table,
            via: copy_opt(&self.via),
            dev: copy_opt(&self.dev),
            metric: self.metric,
        }
    }

    /// Whether two routes are the same.
    pub fn same(&self, other: &Self) -> (r: bool)
        ensures
            r == (self@ == other@),
    {
        str_eq(self.dest.as_str(), other.dest.as_str()) && self.prefix == other.prefix
            && self.table == other.table && opt_str_eq(&self.via, &other.via)
            && opt_str_eq(&self.dev, &other.dev) && self.metric == other.metric
    }
}

// ─── Payload views ──────────────────────────────────────────────────

impl View for EndpointRef {
    type V = (Seq<char>, Seq<char>);

    open spec fn view(&self) -> (Seq<char>, Seq<char>) {
        (self.node@, self.iface@)
    }
}

impl View for PortVlans {
    type V = (Seq<u16>, Option<u16>, bool);

    open spec fn view(&self) -> (Seq<u16>, Option<u16>, bool) {
        (self.vlans@, self.pvid, self.untagged)
    }
}

impl View for ExecConfig {
    type V = (Seq<Seq<char>>, bool);

    open spec fn view(&self) -> (Seq<Seq<char>>, bool) {
        (strs(self.cmd@), self.background)
    }
}

impl View for MacvlanConfig {
    type V = (Seq<char>, Seq<char>, MacvlanMode, Seq<Seq<char>>);

    open spec fn view(&self) -> (Seq<char>, Seq<char>, MacvlanMode, Seq<Seq<char>>) {
        (self.name@, self.parent@, self.mode, strs(self.addresses@))
    }
}

impl View for IpvlanConfig {
    type V = (Seq<char>, Seq<char>, IpvlanMode, Seq<Seq<char>>);

    open spec fn view(&self) -> (Seq<char>, Seq<char>, IpvlanMode, Seq<Seq<char>>) {
        (self.name@, self.parent@, self.mode, strs(self.addresses@))
    }
}

impl View for WifiConfig {
    type V = (Seq<char>, WifiMode, Option<Seq<char>>, Option<u32>);

    open spec fn view(&self) -> (Seq<char>, WifiMode, Option<Seq<char>>, Option<u32>) {
        (self.name@, self.mode, ostr(self.mesh_id), self.channel)
    }
}

/// A copy of a list of VLAN ids.
pub(crate) fn copy_vids(v: &[u16]) -> (r: Vec<u16>)
    ensures
        r@ == v@,
{
    let mut r: Vec<u16> = Vec::new();
    let mut i: usize = 0;
    while i < v.len()
        invariant
            i <= v@.len(),
            r@ == v@.take(i as int),
        decreases v@.len() - i,
    {
        r.push(v[i]);
        i = i + 1;
        assert(r@ =~= v@.take(i as int));
    }
    assert(r@ =~= v@);
    r
}

/// Whether two lists hold the same VLAN ids.
fn vids_eq(a: &[u16], b: &[u16]) -> (r: bool)
    ensures
        r == (a@ == b@),
{
    if a.len() != b.len() {
        return false;
    }
    let mut i: usize = 0;
    while i < a.len()
        invariant
            i <= a@.len(),
            a@.len() == b@.len(),
            forall|j: int| 0 <= j < i ==> a@[j] == b@[j],
        decreases a@.len() - i,
    {
        if a[i] != b[i] {
            return false;
        }
        i = i + 1;
    }
    assert(a@ =~= b@);
    true
}

impl PortVlans {
    /// A copy with the same settings.
    pub fn copy(&self) -> (r: Self)
        ensures
            r@ == self@,
    {
        PortVlans { vlans: copy_vids(self.vlans.as_slice()), pvid: self.pvid, untagged: self.untagged }
    }

    /// Whether two settings are the same.
    pub fn same(&self, other: &Self) -> (r: bool)
        ensures
            r == (self@ == other@),
    {
        vids_eq(self.vlans.as_slice(), other.vlans.as_slice()) && self.pvid == other.pvid
            && self.untagged == other.untagged
    }
}

impl EndpointRef {
    /// An identical copy.
    pub fn copy(&self) -> (r: Self)
        ensures
            r == *self,
    {
        EndpointRef { node: self.node.clone(), iface: self.iface.clone() }
    }

    /// Whether two endpoints name the same node and interface.
    pub fn same(&self, other: &Self) -> (r: bool)
        ensures
            r == (self@ == other@),
    {
        str_eq(self.node.as_str(), other.node.as_str()) && str_eq(self.iface.as_str(), other.iface.as_str())
    }
}

impl ExecConfig {
    /// A copy of the same command.
    pub fn copy(&self) -> (r: Self)
        ensures
            r@ == self@,
    {
        ExecConfig { cmd: copy_strs(self.cmd.as_slice()), background: self.background }
    }

    /// Whether two commands are the same.
    pub fn same(&self, other: &Self) -> (r: bool)
        ensures
            r == (self@ == other@),
    {
        strs_eq(self.cmd.as_slice(), other.cmd.as_slice()) && self.background == other.background
    }
}

impl MacvlanConfig {
    /// A copy with the same settings.
    pub fn copy(&self) -> (r: Self)
        ensures
            r@ == self@,
    {
        MacvlanConfig {
            name: self.name.clone(),
            parent: self.parent.clone(),
            mode: self.mode,
            addresses: copy_strs(self.addresses.as_slice()),
        }
    }

    /// Whether two settings are the same.
    pub fn same(&self, other: &Self) -> (r: bool)
        ensures
            r == (self@ == other@),
    {
        str_eq(self.name.as_str(), other.name.as_str()) && str_eq(self.parent.as_str(), other.parent.as_str())
            && self.mode == other.mode && strs_eq(self.addresses.as_slice(), other.addresses.as_slice())
    }
}

impl IpvlanConfig {
    /// A copy with the same settings.
    pub fn copy(&self) -> (r: Self)
        ensures
            r@ == self@,
    {
        IpvlanConfig {
            name: self.name.clone(),
            parent: self.parent.clone(),
            mode: self.mode,
            addresses: copy_strs(self.addresses.as_slice()),
        }
    }

    /// Whether two settings are the same.
    pub fn same(&self, other: &Self) -> (r: bool)
        ensures
            r == (self@ == other@),
    {
        str_eq(self.name.as_str(), other.name.as_str()) && str_eq(self.parent.as_str(), other.parent.as_str())
            && self.mode == other.mode && strs_eq(self.addresses.as_slice(), other.addresses.as_slice())
    }
}

impl WifiConfig {
    /// An identical copy.
    pub fn copy(&self) -> (r: Self)
        ensures
            r == *self,
    {
        WifiConfig { name: self.name.clone(), mode: self.mode, mesh_id: copy_opt(&self.mesh_id), channel: self.channel }
    }

    /// Whether two settings are the same.
    pub fn same(&self, other: &Self) -> (r: bool)
        ensures
            r == (self@ == other@),
    {
        str_eq(self.name.as_str(), other.name.as_str()) && self.mode == other.mode
            && opt_str_eq(&self.mesh_id, &other.mesh_id) && self.channel == other.channel
    }
}

/// Whether two rate limits are the same.
fn rate_limits_eq(a: &RateLimit, b: &RateLimit) -> (r: bool)
    ensures
        r == (a@ == b@),
{
    opt_str_eq(&a.egress, &b.egress) && opt_str_eq(&a.ingress, &b.ingress) && opt_str_eq(&a.burst, &b.burst)
}

// ─── Operations ─────────────────────────────────────────────────────

/// One unit of work in a deploy or apply plan.
///
/// Ops are pure data: building them touches nothing. Every create op that
/// leaves a resource behind has an inverse (see [`Op::inverse`]) addressing
/// the same resource, so two plans can be diffed by key. The declarative
/// per-node stack configuration that a `Stack` op applies is produced next
/// to the executor; the plan only records which node it reconciles.
#[derive(Debug, Clone)]
pub enum Op {
    CreateNamespace { node: String, ns: String },
    CreateContainer { node: String, name: String, image: String, pull: Option<String>, opts: CreateOpts },
    LoadHwsim { radios: u32, order: Vec<(String, String)> },
    /// The host-side management bridge with its IPv4 address (as a 32-bit
    /// number) and prefix length.
    CreateMgmtBridge { name: String, ip: u32, prefix: u8 },
    CreateMgmtVeth { node: String, peer: String, bridge: String, node_ip: u32, prefix: u8 },
    CreateMgmtNamespace { ns: String },
    CreateBridge { ns: String, network: String, name: String, vlan_filtering: bool, mtu: Option<u32> },
    CreateNetworkVeth { node: String, iface: String, peer: String, mgmt_ns: String, bridge: String, vlans: Option<PortVlans> },
    CreateVeth { a: EndpointRef, b: EndpointRef, mtu: Option<u32> },
    CreateMacvlan { node: String, cfg: MacvlanConfig },
    CreateIpvlan { node: String, cfg: IpvlanConfig },
    LinksUp { node: String, ifaces: Vec<String> },
    Sysctls { node: String, entries: StrMap<String> },
    Stack { node: String },
    /// A route in a non-main table (VRF); see [`Stage::Routes`].
    Route { node: String, route: RouteSpec },
    Netem { node: String, iface: String, impairment: Impairment },
    /// All per-pair `impair a -- b` matrices of every `network` block.
    NetworkImpairments,
    RateLimit { node: String, iface: String, limit: RateLimit },
    DnsInject { lab: String },
    DnsNetnsEtc { node: String, ns: String },
    StartupDelay { node: String, delay: String },
    Exec { node: String, index: usize, command: ExecConfig },
    Healthcheck { node: String, cmd: String, interval: Option<String>, timeout: Option<String> },
    WifiDaemon { node: String, wifi: WifiConfig },
    // ── diff-only (apply): inverses of the ops above ──
    DeleteNamespace { node: String, ns: String },
    RemoveContainer { node: String, id: String },
    DeleteLink { node: String, iface: String },
    DeleteHostLink { name: String },
    DelRoute { node: String, route: RouteSpec },
    ClearQdisc { node: String, iface: String },
    RemoveRateLimit { node: String, iface: String },
    KillNodeProcesses { node: String },
    RemoveDns { lab: String },
}

/// An op as characters and numbers: what two ops are compared by.
pub enum OpView {
    CreateNamespace { node: Seq<char>, ns: Seq<char> },
    CreateContainer { node: Seq<char>, name: Seq<char>, image: Seq<char>, pull: Option<Seq<char>>, opts: CreateOptsView },
    LoadHwsim { radios: u32, order: Seq<(Seq<char>, Seq<char>)> },
    CreateMgmtBridge { name: Seq<char>, ip: u32, prefix: u8 },
    CreateMgmtVeth { node: Seq<char>, peer: Seq<char>, bridge: Seq<char>, node_ip: u32, prefix: u8 },
    CreateMgmtNamespace { ns: Seq<char> },
    CreateBridge { ns: Seq<char>, network: Seq<char>, name: Seq<char>, vlan_filtering: bool, mtu: Option<u32> },
    CreateNetworkVeth { node: Seq<char>, iface: Seq<char>, peer: Seq<char>, mgmt_ns: Seq<char>, bridge: Seq<char>,
        vlans: Option<(Seq<u16>, Option<u16>, bool)> },
    CreateVeth { a: (Seq<char>, Seq<char>), b: (Seq<char>, Seq<char>), mtu: Option<u32> },
    CreateMacvlan { node: Seq<char>, cfg: (Seq<char>, Seq<char>, MacvlanMode, Seq<Seq<char>>) },
    CreateIpvlan { node: Seq<char>, cfg: (Seq<char>, Seq<char>, IpvlanMode, Seq<Seq<char>>) },
    LinksUp { node: Seq<char>, ifaces: Seq<Seq<char>> },
    Sysctls { node: Seq<char>, keys: Seq<Seq<char>>, vals: Seq<Seq<char>> },
    Stack { node: Seq<char> },
    Route { node: Seq<char>, route: RouteSpecView },
    Netem { node: Seq<char>, iface: Seq<char>, impairment: ImpairmentView },
    NetworkImpairments,
    RateLimit { node: Seq<char>, iface: Seq<char>, limit: RateLimitView },
    DnsInject { lab: Seq<char> },
    DnsNetnsEtc { node: Seq<char>, ns: Seq<char> },
    StartupDelay { node: Seq<char>, delay: Seq<char> },
    Exec { node: Seq<char>, index: usize, command: (Seq<Seq<char>>, bool) },
    Healthcheck { node: Seq<char>, cmd: Seq<char>, interval: Option<Seq<char>>, timeout: Option<Seq<char>> },
    WifiDaemon { node: Seq<char>, wifi: (Seq<char>, WifiMode, Option<Seq<char>>, Option<u32>) },
    DeleteNamespace { node: Seq<char>, ns: Seq<char> },
    RemoveContainer { node: Seq<char>, id: Seq<char> },
    DeleteLink { node: Seq<char>, iface: Seq<char> },
    DeleteHostLink { name: Seq<char> },
    DelRoute { node: Seq<char>, route: RouteSpecView },
    ClearQdisc { node: Seq<char>, iface: Seq<char> },
    RemoveRateLimit { node: Seq<char>, iface: Seq<char> },
    KillNodeProcesses { node: Seq<char> },
    RemoveDns { lab: Seq<char> },
}

impl View for Op {
    type V = OpView;

    open spec fn view(&self) -> OpView {
        match self {
            Op::CreateNamespace { node, ns } => OpView::CreateNamespace { node: node@, ns: ns@ },
            Op::CreateContainer { node, name, image, pull, opts } =>
                OpView::CreateContainer { node: node@, name: name@, image: image@, pull: ostr(*pull), opts: opts@ },
            Op::LoadHwsim { radios, order } => OpView::LoadHwsim { radios: *radios, order: pair_strs(order@) },
            Op::CreateMgmtBridge { name, ip, prefix } => OpView::CreateMgmtBridge { name: name@, ip: *ip, prefix: *prefix },
            Op::CreateMgmtVeth { node, peer, bridge, node_ip, prefix } =>
                OpView::CreateMgmtVeth { node: node@, peer: peer@, bridge: bridge@, node_ip: *node_ip, prefix: *prefix },
            Op::CreateMgmtNamespace { ns } => OpView::CreateMgmtNamespace { ns: ns@ },
            Op::CreateBridge { ns, network, name, vlan_filtering, mtu } =>
                OpView::CreateBridge { ns: ns@, network: network@, name: name@, vlan_filtering: *vlan_filtering, mtu: *mtu },
            Op::CreateNetworkVeth { node, iface, peer, mgmt_ns, bridge, vlans } => OpView::CreateNetworkVeth {
                node: node@, iface: iface@, peer: peer@, mgmt_ns: mgmt_ns@, bridge: bridge@,
                vlans: match vlans { Some(v) => Some(v@), None => None },
            },
            Op::CreateVeth { a, b, mtu } => OpView::CreateVeth { a: a@, b: b@, mtu: *mtu },
            Op::CreateMacvlan { node, cfg } => OpView::CreateMacvlan { node: node@, cfg: cfg@ },
            Op::CreateIpvlan { node, cfg } => OpView::CreateIpvlan { node: node@, cfg: cfg@ },
            Op::LinksUp { node, ifaces } => OpView::LinksUp { node: node@, ifaces: strs(ifaces@) },
            Op::Sysctls { node, entries } => OpView::Sysctls { node: node@, keys: entries.keys(), vals: strs(entries.vals()) },
            Op::Stack { node } => OpView::Stack { node: node@ },
            Op::Route { node, route } => OpView::Route { node: node@, route: route@ },
            Op::Netem { node, iface, impairment } => OpView::Netem { node: node@, iface: iface@, impairment: impairment@ },
            Op::NetworkImpairments => OpView::NetworkImpairments,
            Op::RateLimit { node, iface, limit } => OpView::RateLimit { node: node@, iface: iface@, limit: limit@ },
            Op::DnsInject { lab } => OpView::DnsInject { lab: lab@ },
            Op::DnsNetnsEtc { node, ns } => OpView::DnsNetnsEtc { node: node@, ns: ns@ },
            Op::StartupDelay { node, delay } => OpView::StartupDelay { node: node@, delay: delay@ },
            Op::Exec { node, index, command } => OpView::Exec { node: node@, index: *index, command: command@ },
            Op::Healthcheck { node, cmd, interval, timeout } =>
                OpView::Healthcheck { node: node@, cmd: cmd@, interval: ostr(*interval), timeout: ostr(*timeout) },
            Op::WifiDaemon { node, wifi } => OpView::WifiDaemon { node: node@, wifi: wifi@ },
            Op::DeleteNamespace { node, ns } => OpView::DeleteNamespace { node: node@, ns: ns@ },
            Op::RemoveContainer { node, id } => OpView::RemoveContainer { node: node@, id: id@ },
            Op::DeleteLink { node, iface } => OpView::DeleteLink { node: node@, iface: iface@ },
            Op::DeleteHostLink { name } => OpView::DeleteHostLink { name: name@ },
            Op::DelRoute { node, route } => OpView::DelRoute { node: node@, route: route@ },
            Op::ClearQdisc { node, iface } => OpView::ClearQdisc { node: node@, iface: iface@ },
            Op::RemoveRateLimit { node, iface } => OpView::RemoveRateLimit { node: node@, iface: iface@ },
            Op::KillNodeProcesses { node } => OpView::KillNodeProcesses { node: node@ },
            Op::RemoveDns { lab } => OpView::RemoveDns { lab: lab@ },
        }
    }
}

/// The stage an op executes in.
pub open spec fn stage_of(o: OpView) -> Stage {
    match o {
        OpView::CreateNamespace { .. } | OpView::CreateContainer { .. } | OpView::DeleteNamespace { .. }
        | OpView::RemoveContainer { .. } => Stage::Namespaces,
        OpView::LoadHwsim { .. } => Stage::Hwsim,
        OpView::CreateMgmtBridge { .. } | OpView::CreateMgmtVeth { .. } | OpView::DeleteHostLink { .. } => Stage::MgmtBridge,
        OpView::CreateMgmtNamespace { .. } | OpView::CreateBridge { .. } | OpView::CreateNetworkVeth { .. } => Stage::Networks,
        OpView::CreateVeth { .. } | OpView::DeleteLink { .. } => Stage::Links,
        OpView::CreateMacvlan { .. } | OpView::CreateIpvlan { .. } => Stage::HostLinks,
        OpView::LinksUp { .. } => Stage::LinksUp,
        OpView::Sysctls { .. } => Stage::Sysctls,
        OpView::Stack { .. } => Stage::Stack,
        OpView::Route { .. } | OpView::DelRoute { .. } => Stage::Routes,
        OpView::Netem { .. } | OpView::NetworkImpairments | OpView::RateLimit { .. } | OpView::ClearQdisc { .. }
        | OpView::RemoveRateLimit { .. } => Stage::Tc,
        OpView::DnsInject { .. } | OpView::DnsNetnsEtc { .. } | OpView::RemoveDns { .. } => Stage::Dns,
        OpView::StartupDelay { .. } | OpView::Exec { .. } | OpView::Healthcheck { .. }
        | OpView::KillNodeProcesses { .. } => Stage::Processes,
        OpView::WifiDaemon { .. } => Stage::Wifi,
    }
}

/// `a:b` joined with a colon.
pub open spec fn colon(a: Seq<char>, b: Seq<char>) -> Seq<char> {
    a + ":"@ + b
}

/// The identity of the resource an op addresses: two ops with the same
/// key describe the same resource.
pub open spec fn key_of(o: OpView) -> Seq<char> {
    match o {
        OpView::CreateNamespace { ns, .. } => "ns:"@ + ns,
        OpView::DeleteNamespace { ns, .. } => "ns:"@ + ns,
        OpView::CreateContainer { node, .. } => "container:"@ + node,
        OpView::RemoveContainer { node, .. } => "container:"@ + node,
        OpView::LoadHwsim { .. } => "hwsim"@,
        OpView::CreateMgmtBridge { name, .. } => "hostlink:"@ + name,
        OpView::CreateMgmtVeth { peer, .. } => "hostlink:"@ + peer,
        OpView::DeleteHostLink { name } => "hostlink:"@ + name,
        OpView::CreateMgmtNamespace { ns } => "ns:"@ + ns,
        OpView::CreateBridge { ns, name, .. } => "bridge:"@ + colon(ns, name),
        OpView::CreateNetworkVeth { node, iface, .. } => "link:"@ + colon(node, iface),
        OpView::DeleteLink { node, iface } => "link:"@ + colon(node, iface),
        OpView::CreateVeth { a, .. } => "link:"@ + colon(a.0, a.1),
        OpView::CreateMacvlan { node, cfg } => "link:"@ + colon(node, cfg.0),
        OpView::CreateIpvlan { node, cfg } => "link:"@ + colon(node, cfg.0),
        OpView::LinksUp { node, .. } => "linksup:"@ + node,
        OpView::Sysctls { node, .. } => "sysctls:"@ + node,
        OpView::Stack { node } => "stack:"@ + node,
        OpView::Route { node, route } =>
            "route:"@ + colon(node, dec(route.table as nat)) + ":"@ + route.dest + "/"@ + dec(route.prefix as nat),
        OpView::DelRoute { node, route } =>
            "route:"@ + colon(node, dec(route.table as nat)) + ":"@ + route.dest + "/"@ + dec(route.prefix as nat),
        OpView::Netem { node, iface, .. } => "qdisc:"@ + colon(node, iface),
        OpView::ClearQdisc { node, iface } => "qdisc:"@ + colon(node, iface),
        OpView::NetworkImpairments => "network-impairments"@,
        OpView::RateLimit { node, iface, .. } => "ratelimit:"@ + colon(node, iface),
        OpView::RemoveRateLimit { node, iface } => "ratelimit:"@ + colon(node, iface),
        OpView::DnsInject { lab } => "dns:"@ + lab,
        OpView::RemoveDns { lab } => "dns:"@ + lab,
        OpView::DnsNetnsEtc { ns, .. } => "dns-etc:"@ + ns,
        OpView::StartupDelay { node, .. } => "delay:"@ + node,
        OpView::Exec { node, index, .. } => "exec:"@ + colon(node, dec(index as nat)),
        OpView::Healthcheck { node, .. } => "healthcheck:"@ + node,
        OpView::WifiDaemon { node, wifi } => "wifi:"@ + colon(node, wifi.0),
        OpView::KillNodeProcesses { node } => "procs:"@ + node,
    }
}

/// The op that undoes `o` when its resource leaves the desired topology;
/// `None` where the removal is implied by another inverse or there is
/// nothing to undo.
pub open spec fn inverse_of(o: OpView) -> Option<OpView> {
    match o {
        OpView::CreateNamespace { node, ns } => Some(OpView::DeleteNamespace { node, ns }),
        OpView::CreateMgmtNamespace { ns } => Some(OpView::DeleteNamespace { node: Seq::empty(), ns }),
        OpView::CreateContainer { node, name, .. } => Some(OpView::RemoveContainer { node, id: name }),
        OpView::CreateMgmtBridge { name, .. } => Some(OpView::DeleteHostLink { name }),
        OpView::CreateMgmtVeth { peer, .. } => Some(OpView::DeleteHostLink { name: peer }),
        OpView::CreateNetworkVeth { node, iface, .. } => Some(OpView::DeleteLink { node, iface }),
        OpView::CreateVeth { a, .. } => Some(OpView::DeleteLink { node: a.0, iface: a.1 }),
        OpView::CreateMacvlan { node, cfg } => Some(OpView::DeleteLink { node, iface: cfg.0 }),
        OpView::CreateIpvlan { node, cfg } => Some(OpView::DeleteLink { node, iface: cfg.0 }),
        OpView::Route { node, route } => Some(OpView::DelRoute { node, route }),
        OpView::Netem { node, iface, .. } => Some(OpView::ClearQdisc { node, iface }),
        OpView::RateLimit { node, iface, .. } => Some(OpView::RemoveRateLimit { node, iface }),
        OpView::DnsInject { lab } => Some(OpView::RemoveDns { lab }),
        OpView::Exec { node, command, .. } => if command.1 { Some(OpView::KillNodeProcesses { node }) } else { None },
        _ => None,
    }
}

/// The diff-only removal ops.
pub open spec fn is_removal_op(o: OpView) -> bool {
    match o {
        OpView::DeleteNamespace { .. } | OpView::RemoveContainer { .. } | OpView::DeleteLink { .. }
        | OpView::DeleteHostLink { .. } | OpView::DelRoute { .. } | OpView::ClearQdisc { .. }
        | OpView::RemoveRateLimit { .. } | OpView::KillNodeProcesses { .. } | OpView::RemoveDns { .. } => true,
        _ => false,
    }
}

/// The view of an optional op.
pub open spec fn opt_op_view(o: Option<Op>) -> Option<OpView> {
    match o {
        Some(op) => Some(op@),
        None => None,
    }
}

/// `head` followed by `a:b`.
fn push_pair(s: &mut String, head: &str, a: &str, b: &str)
    ensures
        final(s)@ == old(s)@ + head@ + colon(a@, b@),
{
    push_str(s, head);
    push_str(s, a);
    push_str(s, ":");
    push_str(s, b);
}

/// `head` followed by `a`.
fn text_of(head: &str, a: &str) -> (s: String)
    ensures
        s@ == head@ + a@,
{
    let mut s = String::new();
    push_str(&mut s, head);
    push_str(&mut s, a);
    s
}

/// `head` followed by `a:b`.
fn text_of_pair(head: &str, a: &str, b: &str) -> (s: String)
    ensures
        s@ == head@ + colon(a@, b@),
{
    let mut s = String::new();
    push_pair(&mut s, head, a, b);
    s
}

/// The key of a route op at `node`.
fn route_key(node: &str, route: &RouteSpec) -> (s: String)
    ensures
        s@ == "route:"@ + colon(node@, dec(route.table as nat)) + ":"@ + route.dest@ + "/"@ + dec(route.prefix as nat),
{
    let mut s = String::new();
    push_str(&mut s, "route:");
    push_str(&mut s, node);
    push_str(&mut s, ":");
    push_dec(&mut s, route.table as u64);
    push_str(&mut s, ":");
    push_str(&mut s, route.dest.as_str());
    push_str(&mut s, "/");
    push_dec(&mut s, route.prefix as u64);
    s
}

impl Op {
    /// Stage the op executes in.
    pub fn stage(&self) -> (r: Stage)
        ensures
            r == stage_of(self@),
    {
        match self {
            Op::CreateNamespace { .. } | Op::CreateContainer { .. } | Op::DeleteNamespace { .. }
            | Op::RemoveContainer { .. } => Stage::Namespaces,
            Op::LoadHwsim { .. } => Stage::Hwsim,
            Op::CreateMgmtBridge { .. } | Op::CreateMgmtVeth { .. } | Op::DeleteHostLink { .. } => Stage::MgmtBridge,
            Op::CreateMgmtNamespace { .. } | Op::CreateBridge { .. } | Op::CreateNetworkVeth { .. } => Stage::Networks,
            Op::CreateVeth { .. } | Op::DeleteLink { .. } => Stage::Links,
            Op::CreateMacvlan { .. } | Op::CreateIpvlan { .. } => Stage::HostLinks,
            Op::LinksUp { .. } => Stage::LinksUp,
            Op::Sysctls { .. } => Stage::Sysctls,
            Op::Stack { .. } => Stage::Stack,
            Op::Route { .. } | Op::DelRoute { .. } => Stage::Routes,
            Op::Netem { .. } | Op::NetworkImpairments | Op::RateLimit { .. } | Op::ClearQdisc { .. }
            | Op::RemoveRateLimit { .. } => Stage::Tc,
            Op::DnsInject { .. } | Op::DnsNetnsEtc { .. } | Op::RemoveDns { .. } => Stage::Dns,
            Op::StartupDelay { .. } | Op::Exec { .. } | Op::Healthcheck { .. } | Op::KillNodeProcesses { .. } => Stage::Processes,
            Op::WifiDaemon { .. } => Stage::Wifi,
        }
    }

    /// Stable identity used to diff two plans (see [`key_of`]).
    pub fn key(&self) -> (r: String)
        ensures
            r@ == key_of(self@),
    {
        match self {
            Op::CreateNamespace { ns, .. } | Op::DeleteNamespace { ns, .. } => text_of("ns:", ns.as_str()),
            Op::CreateContainer { node, .. } | Op::RemoveContainer { node, .. } => text_of("container:", node.as_str()),
            Op::LoadHwsim { .. } => crate::text::owned("hwsim"),
            Op::CreateMgmtBridge { name, .. } => text_of("hostlink:", name.as_str()),
            Op::CreateMgmtVeth { peer, .. } => text_of("hostlink:", peer.as_str()),
            Op::DeleteHostLink { name } => text_of("hostlink:", name.as_str()),
            Op::CreateMgmtNamespace { ns } => text_of("ns:", ns.as_str()),
            Op::CreateBridge { ns, name, .. } => text_of_pair("bridge:", ns.as_str(), name.as_str()),
            Op::CreateNetworkVeth { node, iface, .. } | Op::DeleteLink { node, iface } =>
                text_of_pair("link:", node.as_str(), iface.as_str()),
            Op::CreateVeth { a, .. } => text_of_pair("link:", a.node.as_str(), a.iface.as_str()),
            Op::CreateMacvlan { node, cfg } => text_of_pair("link:", node.as_str(), cfg.name.as_str()),
            Op::CreateIpvlan { node, cfg } => text_of_pair("link:", node.as_str(), cfg.name.as_str()),
            Op::LinksUp { node, .. } => text_of("linksup:", node.as_str()),
            Op::Sysctls { node, .. } => text_of("sysctls:", node.as_str()),
            Op::Stack { node } => text_of("stack:", node.as_str()),
            Op::Route { node, route } | Op::DelRoute { node, route } => route_key(node.as_str(), route),
            Op::Netem { node, iface, .. } | Op::ClearQdisc { node, iface } =>
                text_of_pair("qdisc:", node.as_str(), iface.as_str()),
            Op::NetworkImpairments => crate::text::owned("network-impairments"),
            Op::RateLimit { node, iface, .. } | Op::RemoveRateLimit { node, iface } =>
                text_of_pair("ratelimit:", node.as_str(), iface.as_str()),
            Op::DnsInject { lab } | Op::RemoveDns { lab } => text_of("dns:", lab.as_str()),
            Op::DnsNetnsEtc { ns, .. } => text_of("dns-etc:", ns.as_str()),
            Op::StartupDelay { node, .. } => text_of("delay:", node.as_str()),
            Op::Exec { node, index, .. } => {
                let mut s = String::new();
                push_str(&mut s, "exec:");
                push_str(&mut s, node.as_str());
                push_str(&mut s, ":");
                push_dec(&mut s, *index as u64);
                s
            },
            Op::Healthcheck { node, .. } => text_of("healthcheck:", node.as_str()),
            Op::WifiDaemon { node, wifi } => text_of_pair("wifi:", node.as_str(), wifi.name.as_str()),
            Op::KillNodeProcesses { node } => text_of("procs:", node.as_str()),
        }
    }

    /// The op that undoes this one at apply time (see [`inverse_of`]).
    pub fn inverse(&self) -> (r: Option<Op>)
        ensures
            opt_op_view(r) == inverse_of(self@),
    {
        match self {
            Op::CreateNamespace { node, ns } => Some(Op::DeleteNamespace { node: node.clone(), ns: ns.clone() }),
            Op::CreateMgmtNamespace { ns } => Some(Op::DeleteNamespace { node: String::new(), ns: ns.clone() }),
            Op::CreateContainer { node, name, .. } => Some(Op::RemoveContainer { node: node.clone(), id: name.clone() }),
            Op::CreateMgmtBridge { name, .. } => Some(Op::DeleteHostLink { name: name.clone() }),
            Op::CreateMgmtVeth { peer, .. } => Some(Op::DeleteHostLink { name: peer.clone() }),
            Op::CreateNetworkVeth { node, iface, .. } => Some(Op::DeleteLink { node: node.clone(), iface: iface.clone() }),
            Op::CreateVeth { a, .. } => Some(Op::DeleteLink { node: a.node.clone(), iface: a.iface.clone() }),
            Op::CreateMacvlan { node, cfg } => Some(Op::DeleteLink { node: node.clone(), iface: cfg.name.clone() }),
            Op::CreateIpvlan { node, cfg } => Some(Op::DeleteLink { node: node.clone(), iface: cfg.name.clone() }),
            Op::Route { node, route } => Some(Op::DelRoute { node: node.clone(), route: route.copy() }),
            Op::Netem { node, iface, .. } => Some(Op::ClearQdisc { node: node.clone(), iface: iface.clone() }),
            Op::RateLimit { node, iface, .. } => Some(Op::RemoveRateLimit { node: node.clone(), iface: iface.clone() }),
            Op::DnsInject { lab } => Some(Op::RemoveDns { lab: lab.clone() }),
            Op::Exec { node, command, .. } => {
                if command.background {
                    Some(Op::KillNodeProcesses { node: node.clone() })
                } else {
                    None
                }
            },
            _ => None,
        }
    }

    /// True for the diff-only removal ops.
    pub fn is_removal(&self) -> (r: bool)
        ensures
            r == is_removal_op(self@),
    {
        match self {
            Op::DeleteNamespace { .. } | Op::RemoveContainer { .. } | Op::DeleteLink { .. }
            | Op::DeleteHostLink { .. } | Op::DelRoute { .. } | Op::ClearQdisc { .. }
            | Op::RemoveRateLimit { .. } | Op::KillNodeProcesses { .. } | Op::RemoveDns { .. } => true,
            _ => false,
        }
    }
}


impl Op {
    /// A copy of the op.
    pub fn copy(&self) -> (r: Op)
        ensures
            r@ == self@,
    {
        match self {
            Op::CreateNamespace { node, ns } => Op::CreateNamespace { node: node.clone(), ns: ns.clone() },
            Op::CreateContainer { node, name, image, pull, opts } => Op::CreateContainer {
                node: node.clone(), name: name.clone(), image: image.clone(), pull: copy_opt(pull), opts: opts.copy(),
            },
            Op::LoadHwsim { radios, order } => Op::LoadHwsim { radios: *radios, order: copy_pairs(order.as_slice()) },
            Op::CreateMgmtBridge { name, ip, prefix } => Op::CreateMgmtBridge { name: name.clone(), ip: *ip, prefix: *prefix },
            Op::CreateMgmtVeth { node, peer, bridge, node_ip, prefix } => Op::CreateMgmtVeth {
                node: node.clone(), peer: peer.clone(), bridge: bridge.clone(), node_ip: *node_ip, prefix: *prefix,
            },
            Op::CreateMgmtNamespace { ns } => Op::CreateMgmtNamespace { ns: ns.clone() },
            Op::CreateBridge { ns, network, name, vlan_filtering, mtu } => Op::CreateBridge {
                ns: ns.clone(), network: network.clone(), name: name.clone(), vlan_filtering: *vlan_filtering, mtu: *mtu,
            },
            Op::CreateNetworkVeth { node, iface, peer, mgmt_ns, bridge, vlans } => Op::CreateNetworkVeth {
                node: node.clone(), iface: iface.clone(), peer: peer.clone(), mgmt_ns: mgmt_ns.clone(),
                bridge: bridge.clone(),
                vlans: match vlans { Some(v) => Some(v.copy()), None => None },
            },
            Op::CreateVeth { a, b, mtu } => Op::CreateVeth { a: a.copy(), b: b.copy(), mtu: *mtu },
            Op::CreateMacvlan { node, cfg } => Op::CreateMacvlan { node: node.clone(), cfg: cfg.copy() },
            Op::CreateIpvlan { node, cfg } => Op::CreateIpvlan { node: node.clone(), cfg: cfg.copy() },
            Op::LinksUp { node, ifaces } => Op::LinksUp { node: node.clone(), ifaces: copy_strs(ifaces.as_slice()) },
            Op::Sysctls { node, entries } => Op::Sysctls { node: node.clone(), entries: entries.copy() },
            Op::Stack { node } => Op::Stack { node: node.clone() },
            Op::Route { node, route } => Op::Route { node: node.clone(), route: route.copy() },
            Op::Netem { node, iface, impairment } =>
                Op::Netem { node: node.clone(), iface: iface.clone(), impairment: impairment.copy() },
            Op::NetworkImpairments => Op::NetworkImpairments,
            Op::RateLimit { node, iface, limit } => Op::RateLimit { node: node.clone(), iface: iface.clone(), limit: limit.copy() },
            Op::DnsInject { lab } => Op::DnsInject { lab: lab.clone() },
            Op::DnsNetnsEtc { node, ns } => Op::DnsNetnsEtc { node: node.clone(), ns: ns.clone() },
            Op::StartupDelay { node, delay } => Op::StartupDelay { node: node.clone(), delay: delay.clone() },
            Op::Exec { node, index, command } => Op::Exec { node: node.clone(), index: *index, command: command.copy() },
            Op::Healthcheck { node, cmd, interval, timeout } => Op::Healthcheck {
                node: node.clone(), cmd: cmd.clone(), interval: copy_opt(interval), timeout: copy_opt(timeout),
            },
            Op::WifiDaemon { node, wifi } => Op::WifiDaemon { node: node.clone(), wifi: wifi.copy() },
            Op::DeleteNamespace { node, ns } => Op::DeleteNamespace { node: node.clone(), ns: ns.clone() },
            Op::RemoveContainer { node, id } => Op::RemoveContainer { node: node.clone(), id: id.clone() },
            Op::DeleteLink { node, iface } => Op::DeleteLink { node: node.clone(), iface: iface.clone() },
            Op::DeleteHostLink { name } => Op::DeleteHostLink { name: name.clone() },
            Op::DelRoute { node, route } => Op::DelRoute { node: node.clone(), route: route.copy() },
            Op::ClearQdisc { node, iface } => Op::ClearQdisc { node: node.clone(), iface: iface.clone() },
            Op::RemoveRateLimit { node, iface } => Op::RemoveRateLimit { node: node.clone(), iface: iface.clone() },
            Op::KillNodeProcesses { node } => Op::KillNodeProcesses { node: node.clone() },
            Op::RemoveDns { lab } => Op::RemoveDns { lab: lab.clone() },
        }
    }

    /// Whether two ops are the same op with the same payload.
    pub fn same(&self, other: &Op) -> (r: bool)
        ensures
            r == (self@ == other@),
    {
        match (self, other) {
            (Op::CreateNamespace { node, ns }, Op::CreateNamespace { node: n2, ns: s2 }) =>
                str_eq(node, n2) && str_eq(ns, s2),
            (Op::CreateContainer { node, name, image, pull, opts },
             Op::CreateContainer { node: n2, name: m2, image: i2, pull: p2, opts: o2 }) =>
                str_eq(node, n2) && str_eq(name, m2) && str_eq(image, i2) && opt_str_eq(pull, p2) && opts.same(o2),
            (Op::LoadHwsim { radios, order }, Op::LoadHwsim { radios: r2, order: o2 }) =>
                *radios == *r2 && pairs_eq(order.as_slice(), o2.as_slice()),
            (Op::CreateMgmtBridge { name, ip, prefix }, Op::CreateMgmtBridge { name: n2, ip: i2, prefix: p2 }) =>
                str_eq(name, n2) && *ip == *i2 && *prefix == *p2,
            (Op::CreateMgmtVeth { node, peer, bridge, node_ip, prefix },
             Op::CreateMgmtVeth { node: n2, peer: p2, bridge: b2, node_ip: i2, prefix: x2 }) =>
                str_eq(node, n2) && str_eq(peer, p2) && str_eq(bridge, b2) && *node_ip == *i2 && *prefix == *x2,
            (Op::CreateMgmtNamespace { ns }, Op::CreateMgmtNamespace { ns: s2 }) => str_eq(ns, s2),
            (Op::CreateBridge { ns, network, name, vlan_filtering, mtu },
             Op::CreateBridge { ns: s2, network: w2, name: n2, vlan_filtering: v2, mtu: m2 }) =>
                str_eq(ns, s2) && str_eq(network, w2) && str_eq(name, n2) && *vlan_filtering == *v2 && *mtu == *m2,
            (Op::CreateNetworkVeth { node, iface, peer, mgmt_ns, bridge, vlans },
             Op::CreateNetworkVeth { node: n2, iface: i2, peer: p2, mgmt_ns: g2, bridge: b2, vlans: v2 }) =>
                str_eq(node, n2) && str_eq(iface, i2) && str_eq(peer, p2) && str_eq(mgmt_ns, g2)
                    && str_eq(bridge, b2) && match (vlans, v2) {
                        (Some(x), Some(y)) => x.same(y),
                        (None, None) => true,
                        _ => false,
                    },
            (Op::CreateVeth { a, b, mtu }, Op::CreateVeth { a: a2, b: b2, mtu: m2 }) =>
                a.same(a2) && b.same(b2) && *mtu == *m2,
            (Op::CreateMacvlan { node, cfg }, Op::CreateMacvlan { node: n2, cfg: c2 }) => str_eq(node, n2) && cfg.same(c2),
            (Op::CreateIpvlan { node, cfg }, Op::CreateIpvlan { node: n2, cfg: c2 }) => str_eq(node, n2) && cfg.same(c2),
            (Op::LinksUp { node, ifaces }, Op::LinksUp { node: n2, ifaces: f2 }) =>
                str_eq(node, n2) && strs_eq(ifaces.as_slice(), f2.as_slice()),
            (Op::Sysctls { node, entries }, Op::Sysctls { node: n2, entries: e2 }) =>
                str_eq(node, n2) && str_maps_eq(entries, e2),
            (Op::Stack { node }, Op::Stack { node: n2 }) => str_eq(node, n2),
            (Op::Route { node, route }, Op::Route { node: n2, route: r2 }) => str_eq(node, n2) && route.same(r2),
            (Op::Netem { node, iface, impairment }, Op::Netem { node: n2, iface: i2, impairment: m2 }) =>
                str_eq(node, n2) && str_eq(iface, i2) && !crate::diff::impairment_differs(impairment, m2),
            (Op::NetworkImpairments, Op::NetworkImpairments) => true,
            (Op::RateLimit { node, iface, limit }, Op::RateLimit { node: n2, iface: i2, limit: l2 }) =>
                str_eq(node, n2) && str_eq(iface, i2) && rate_limits_eq(limit, l2),
            (Op::DnsInject { lab }, Op::DnsInject { lab: l2 }) => str_eq(lab, l2),
            (Op::DnsNetnsEtc { node, ns }, Op::DnsNetnsEtc { node: n2, ns: s2 }) => str_eq(node, n2) && str_eq(ns, s2),
            (Op::StartupDelay { node, delay }, Op::StartupDelay { node: n2, delay: d2 }) =>
                str_eq(node, n2) && str_eq(delay, d2),
            (Op::Exec { node, index, command }, Op::Exec { node: n2, index: i2, command: c2 }) =>
                str_eq(node, n2) && *index == *i2 && command.same(c2),
            (Op::Healthcheck { node, cmd, interval, timeout },
             Op::Healthcheck { node: n2, cmd: c2, interval: i2, timeout: t2 }) =>
                str_eq(node, n2) && str_eq(cmd, c2) && opt_str_eq(interval, i2) && opt_str_eq(timeout, t2),
            (Op::WifiDaemon { node, wifi }, Op::WifiDaemon { node: n2, wifi: w2 }) => str_eq(node, n2) && wifi.same(w2),
            (Op::DeleteNamespace { node, ns }, Op::DeleteNamespace { node: n2, ns: s2 }) => str_eq(node, n2) && str_eq(ns, s2),
            (Op::RemoveContainer { node, id }, Op::RemoveContainer { node: n2, id: i2 }) => str_eq(node, n2) && str_eq(id, i2),
            (Op::DeleteLink { node, iface }, Op::DeleteLink { node: n2, iface: i2 }) => str_eq(node, n2) && str_eq(iface, i2),
            (Op::DeleteHostLink { name }, Op::DeleteHostLink { name: n2 }) => str_eq(name, n2),
            (Op::DelRoute { node, route }, Op::DelRoute { node: n2, route: r2 }) => str_eq(node, n2) && route.same(r2),
            (Op::ClearQdisc { node, iface }, Op::ClearQdisc { node: n2, iface: i2 }) => str_eq(node, n2) && str_eq(iface, i2),
            (Op::RemoveRateLimit { node, iface }, Op::RemoveRateLimit { node: n2, iface: i2 }) =>
                str_eq(node, n2) && str_eq(iface, i2),
            (Op::KillNodeProcesses { node }, Op::KillNodeProcesses { node: n2 }) => str_eq(node, n2),
            (Op::RemoveDns { lab }, Op::RemoveDns { lab: l2 }) => str_eq(lab, l2),
            _ => false,
        }
    }
}


// ─── Descriptions ───────────────────────────────────────────────────

/// Strings joined with a separator between each two.
pub open spec fn joined(parts: Seq<Seq<char>>, sep: Seq<char>) -> Seq<char>
    decreases parts.len(),
{
    if parts.len() == 0 {
        Seq::empty()
    } else if parts.len() == 1 {
        parts[0]
    } else {
        joined(parts.drop_last(), sep) + sep + parts.last()
    }
}

/// An IPv4 address held as a 32-bit number, in dotted-quad notation.
pub open spec fn dotted(ip: u32) -> Seq<char> {
    dec((ip / 16777216) as nat) + "."@ + dec(((ip / 65536) % 256) as nat) + "."@
        + dec(((ip / 256) % 256) as nat) + "."@ + dec((ip % 256) as nat)
}

/// The printed name of a wireless role.
pub open spec fn wifi_mode_name(m: WifiMode) -> Seq<char> {
    match m {
        WifiMode::Ap => "Ap"@,
        WifiMode::Station => "Station"@,
        WifiMode::Mesh => "Mesh"@,
    }
}

/// One-line human description of an op.
pub open spec fn description(o: OpView) -> Seq<char> {
    match o {
        OpView::CreateNamespace { node, ns } => "create namespace "@ + ns + " for "@ + node,
        OpView::CreateContainer { node, image, .. } => "create container for "@ + node + " ("@ + image + ")"@,
        OpView::LoadHwsim { radios, .. } => "load mac80211_hwsim radios="@ + dec(radios as nat),
        OpView::CreateMgmtBridge { name, ip, prefix } =>
            "create mgmt bridge "@ + name + " "@ + dotted(ip) + "/"@ + dec(prefix as nat),
        OpView::CreateMgmtVeth { node, peer, node_ip, .. } =>
            "mgmt veth "@ + peer + " ↔ "@ + node + ":mgmt0 "@ + dotted(node_ip),
        OpView::CreateMgmtNamespace { ns } => "create bridge namespace "@ + ns,
        OpView::CreateBridge { network, name, .. } => "create bridge "@ + name + " for network "@ + network,
        OpView::CreateNetworkVeth { node, iface, bridge, .. } => "attach "@ + colon(node, iface) + " to "@ + bridge,
        OpView::CreateVeth { a, b, .. } => "veth "@ + colon(a.0, a.1) + " ↔ "@ + colon(b.0, b.1),
        OpView::CreateMacvlan { node, cfg } => "macvlan "@ + cfg.0 + " (parent "@ + cfg.1 + ") → "@ + node,
        OpView::CreateIpvlan { node, cfg } => "ipvlan "@ + cfg.0 + " (parent "@ + cfg.1 + ") → "@ + node,
        OpView::LinksUp { node, ifaces } => node + ": up "@ + joined(ifaces, ","@),
        OpView::Sysctls { node, keys, .. } => node + ": "@ + dec(keys.len()) + " sysctl(s)"@,
        OpView::Stack { node } => node + ": reconcile links/addresses/routes, nftables, wireguard"@,
        OpView::Route { node, route } => node + ": route "@ + route_text(route),
        OpView::Netem { node, iface, .. } => "netem on "@ + colon(node, iface),
        OpView::NetworkImpairments => "per-pair network impairments"@,
        OpView::RateLimit { node, iface, .. } => "rate limit on "@ + colon(node, iface),
        OpView::DnsInject { lab } => "inject /etc/hosts entries for "@ + lab,
        OpView::DnsNetnsEtc { ns, .. } => "/etc/netns/"@ + ns + " overlay"@,
        OpView::StartupDelay { node, delay } => node + ": wait "@ + delay,
        OpView::Exec { node, index, command } =>
            node + ": exec["@ + dec(index as nat) + "] "@ + joined(command.0, " "@)
                + (if command.1 { " (background)"@ } else { Seq::empty() }),
        OpView::Healthcheck { node, cmd, .. } => node + ": healthcheck `"@ + cmd + "`"@,
        OpView::WifiDaemon { node, wifi } => node + ": wifi "@ + wifi.0 + " ("@ + wifi_mode_name(wifi.1) + ")"@,
        OpView::DeleteNamespace { ns, .. } => "delete namespace "@ + ns,
        OpView::RemoveContainer { node, .. } => "remove container of "@ + node,
        OpView::DeleteLink { node, iface } => "delete link "@ + colon(node, iface),
        OpView::DeleteHostLink { name } => "delete host link "@ + name,
        OpView::DelRoute { node, route } => node + ": delete route "@ + route_text(route),
        OpView::ClearQdisc { node, iface } => "clear qdisc on "@ + colon(node, iface),
        OpView::RemoveRateLimit { node, iface } => "remove rate limit on "@ + colon(node, iface),
        OpView::KillNodeProcesses { node } => "stop background processes of "@ + node,
        OpView::RemoveDns { lab } => "remove /etc/hosts entries for "@ + lab,
    }
}

/// Appends the strings of `v` joined with `sep`.
fn push_joined(s: &mut String, v: &[String], sep: &str)
    ensures
        final(s)@ == old(s)@ + joined(strs(v@), sep@),
{
    let ghost start = s@;
    let mut i: usize = 0;
    while i < v.len()
        invariant
            i <= v@.len(),
            s@ == start + joined(strs(v@).take(i as int), sep@),
        decreases v@.len() - i,
    {
        let ghost before = strs(v@).take(i as int);
        if i > 0 {
            push_str(s, sep);
        }
        push_str(s, v[i].as_str());
        i = i + 1;
        proof {
            let now = strs(v@).take(i as int);
            assert(now.drop_last() =~= before);
            assert(now.last() == v@[i - 1]@);
            if i == 1 {
                assert(before.len() == 0);
                assert(joined(before, sep@) =~= Seq::<char>::empty());
            }
        }
    }
    assert(strs(v@).take(v@.len() as int) =~= strs(v@));
}

/// Appends an IPv4 address in dotted-quad notation.
fn push_dotted(s: &mut String, ip: u32)
    ensures
        final(s)@ == old(s)@ + dotted(ip),
{
    push_dec(s, (ip / 16777216) as u64);
    push_str(s, ".");
    push_dec(s, ((ip / 65536) % 256) as u64);
    push_str(s, ".");
    push_dec(s, ((ip / 256) % 256) as u64);
    push_str(s, ".");
    push_dec(s, (ip % 256) as u64);
}

impl Op {
    /// One-line human description (see [`description`]).
    pub fn describe(&self) -> (r: String)
        ensures
            r@ == description(self@),
    {
        let mut s = String::new();
        match self {
            Op::CreateNamespace { node, ns } => {
                push_str(&mut s, "create namespace ");
                push_str(&mut s, ns);
                push_str(&mut s, " for ");
                push_str(&mut s, node);
            },
            Op::CreateContainer { node, image, .. } => {
                push_str(&mut s, "create container for ");
                push_str(&mut s, node);
                push_str(&mut s, " (");
                push_str(&mut s, image);
                push_str(&mut s, ")");
            },
            Op::LoadHwsim { radios, .. } => {
                push_str(&mut s, "load mac80211_hwsim radios=");
                push_dec(&mut s, *radios as u64);
            },
            Op::CreateMgmtBridge { name, ip, prefix } => {
                push_str(&mut s, "create mgmt bridge ");
                push_str(&mut s, name);
                push_str(&mut s, " ");
                push_dotted(&mut s, *ip);
                push_str(&mut s, "/");
                push_dec(&mut s, *prefix as u64);
            },
            Op::CreateMgmtVeth { node, peer, node_ip, .. } => {
                push_str(&mut s, "mgmt veth ");
                push_str(&mut s, peer);
                push_str(&mut s, " ↔ ");
                push_str(&mut s, node);
                push_str(&mut s, ":mgmt0 ");
                push_dotted(&mut s, *node_ip);
            },
            Op::CreateMgmtNamespace { ns } => {
                push_str(&mut s, "create bridge namespace ");
                push_str(&mut s, ns);
            },
            Op::CreateBridge { network, name, .. } => {
                push_str(&mut s, "create bridge ");
                push_str(&mut s, name);
                push_str(&mut s, " for network ");
                push_str(&mut s, network);
            },
            Op::CreateNetworkVeth { node, iface, bridge, .. } => {
                push_pair(&mut s, "attach ", node, iface);
                push_str(&mut s, " to ");
                push_str(&mut s, bridge);
            },
            Op::CreateVeth { a, b, .. } => {
                push_pair(&mut s, "veth ", &a.node, &a.iface);
                push_pair(&mut s, " ↔ ", &b.node, &b.iface);
            },
            Op::CreateMacvlan { node, cfg } => {
                push_str(&mut s, "macvlan ");
                push_str(&mut s, &cfg.name);
                push_str(&mut s, " (parent ");
                push_str(&mut s, &cfg.parent);
                push_str(&mut s, ") → ");
                push_str(&mut s, node);
            },
            Op::CreateIpvlan { node, cfg } => {
                push_str(&mut s, "ipvlan ");
                push_str(&mut s, &cfg.name);
                push_str(&mut s, " (parent ");
                push_str(&mut s, &cfg.parent);
                push_str(&mut s, ") → ");
                push_str(&mut s, node);
            },
            Op::LinksUp { node, ifaces } => {
                push_str(&mut s, node);
                push_str(&mut s, ": up ");
                push_joined(&mut s, ifaces.as_slice(), ",");
            },
            Op::Sysctls { node, entries } => {
                push_str(&mut s, node);
                push_str(&mut s, ": ");
                push_dec(&mut s, entries.len() as u64);
                push_str(&mut s, " sysctl(s)");
            },
            Op::Stack { node } => {
                push_str(&mut s, node);
                push_str(&mut s, ": reconcile links/addresses/routes, nftables, wireguard");
            },
            Op::Route { node, route } => {
                push_str(&mut s, node);
                push_str(&mut s, ": route ");
                let t = route.to_text();
                push_str(&mut s, &t);
            },
            Op::Netem { node, iface, .. } => push_pair(&mut s, "netem on ", node, iface),
            Op::NetworkImpairments => push_str(&mut s, "per-pair network impairments"),
            Op::RateLimit { node, iface, .. } => push_pair(&mut s, "rate limit on ", node, iface),
            Op::DnsInject { lab } => {
                push_str(&mut s, "inject /etc/hosts entries for ");
                push_str(&mut s, lab);
            },
            Op::DnsNetnsEtc { ns, .. } => {
                push_str(&mut s, "/etc/netns/");
                push_str(&mut s, ns);
                push_str(&mut s, " overlay");
            },
            Op::StartupDelay { node, delay } => {
                push_str(&mut s, node);
                push_str(&mut s, ": wait ");
                push_str(&mut s, delay);
            },
            Op::Exec { node, index, command } => {
                push_str(&mut s, node);
                push_str(&mut s, ": exec[");
                push_dec(&mut s, *index as u64);
                push_str(&mut s, "] ");
                push_joined(&mut s, command.cmd.as_slice(), " ");
                if command.background {
                    push_str(&mut s, " (background)");
                }
            },
            Op::Healthcheck { node, cmd, .. } => {
                push_str(&mut s, node);
                push_str(&mut s, ": healthcheck `");
                push_str(&mut s, cmd);
                push_str(&mut s, "`");
            },
            Op::WifiDaemon { node, wifi } => {
                push_str(&mut s, node);
                push_str(&mut s, ": wifi ");
                push_str(&mut s, &wifi.name);
                push_str(&mut s, " (");
                let m = match wifi.mode {
                    WifiMode::Ap => "Ap",
                    WifiMode::Station => "Station",
                    WifiMode::Mesh => "Mesh",
                };
                push_str(&mut s, m);
                push_str(&mut s, ")");
            },
            Op::DeleteNamespace { ns, .. } => {
                push_str(&mut s, "delete namespace ");
                push_str(&mut s, ns);
            },
            Op::RemoveContainer { node, .. } => {
                push_str(&mut s, "remove container of ");
                push_str(&mut s, node);
            },
            Op::DeleteLink { node, iface } => push_pair(&mut s, "delete link ", node, iface),
            Op::DeleteHostLink { name } => {
                push_str(&mut s, "delete host link ");
                push_str(&mut s, name);
            },
            Op::DelRoute { node, route } => {
                push_str(&mut s, node);
                push_str(&mut s, ": delete route ");
                let t = route.to_text();
                push_str(&mut s, &t);
            },
            Op::ClearQdisc { node, iface } => push_pair(&mut s, "clear qdisc on ", node, iface),
            Op::RemoveRateLimit { node, iface } => push_pair(&mut s, "remove rate limit on ", node, iface),
            Op::KillNodeProcesses { node } => {
                push_str(&mut s, "stop background processes of ");
                push_str(&mut s, node);
            },
            Op::RemoveDns { lab } => {
                push_str(&mut s, "remove /etc/hosts entries for ");
                push_str(&mut s, lab);
            },
        }
        s
    }
}


/// Every inverse is a removal op, and it addresses the same resource as
/// the op it undoes (the key is kept), except for a background process,
/// whose inverse stops all of its node's background processes.
pub proof fn lemma_inverse_keeps_key(op: Op)
    ensures
        inverse_of(op@) matches Some(inv) ==> is_removal_op(inv) && (!(op@ is Exec) ==> key_of(inv) == key_of(op@)),
{
}

} // verus!
