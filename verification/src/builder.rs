//! Programmatic topology builder: build a [`Topology`] in code rather than
//! from a topology file. Each builder method sets one field or adds one
//! entry; closures configure nested items, starting from a blank builder.
use vstd::prelude::*;
use crate::map::StrMap;
use crate::text::owned;
use crate::types::{
    Node, Profile, VrfConfig, Network, Topology, ExecConfig, VlanConfig, LabConfig, set_vlan, vid_map,
    str_vals,
    FirewallConfig, FirewallRule, FirewallView, Impairment, ImpairmentView, InterfaceConfig,
    InterfaceView, Link, PortConfig, RateLimit, RateLimitView, RouteConfig, RouteConfigView,
    WireguardConfig, WireguardView, ostr, strs,
};

verus! {

// ─── Interface ──────────────────────────────────────────────

/// Builder for [`InterfaceConfig`].
pub struct InterfaceBuilder {
    config: InterfaceConfig,
}

impl InterfaceBuilder {
    /// The configuration built so far.
    pub closed spec fn value(&self) -> InterfaceConfig {
        self.config
    }

    pub open spec fn blank(&self) -> bool {
        self.value()@ == (InterfaceView {
            kind: None, addresses: Seq::empty(), vni: None, local: None, remote: None,
            port: None, mtu: None,
        })
    }

    fn new() -> (b: Self)
        ensures
            b.blank(),
    {
        let b = InterfaceBuilder {
            config: InterfaceConfig {
                kind: None,
                addresses: Vec::new(),
                vni: None,
                local: None,
                remote: None,
                port: None,
                mtu: None,
            },
        };
        assert(b.value()@.addresses =~= Seq::empty());
        b
    }

    /// Set the interface kind (vxlan, bond, dummy, etc.).
    pub fn kind(self, kind: &str) -> (r: Self)
        ensures
            r.value()@ == (InterfaceView { kind: Some(kind@), ..self.value()@ }),
    {
        let mut c = self.config;
        c.kind = Some(owned(kind));
        InterfaceBuilder { config: c }
    }

    /// Add an address in CIDR notation.
    pub fn address(self, cidr: &str) -> (r: Self)
        ensures
            r.value()@ == (InterfaceView {
                addresses: self.value()@.addresses.push(cidr@),
                ..self.value()@
            }),
    {
        let mut c = self.config;
        c.addresses.push(owned(cidr));
        let r = InterfaceBuilder { config: c };
        assert(r.value()@.addresses =~= self.value()@.addresses.push(cidr@));
        r
    }

    /// Set the VXLAN VNI.
    pub fn vni(self, vni: u32) -> (r: Self)
        ensures
            r.value()@ == (InterfaceView { vni: Some(vni), ..self.value()@ }),
    {
        let mut c = self.config;
        c.vni = Some(vni);
        InterfaceBuilder { config: c }
    }

    /// Set the local tunnel address.
    pub fn local(self, addr: &str) -> (r: Self)
        ensures
            r.value()@ == (InterfaceView { local: Some(addr@), ..self.value()@ }),
    {
        let mut c = self.config;
        c.local = Some(owned(addr));
        InterfaceBuilder { config: c }
    }

    /// Set the remote tunnel address.
    pub fn remote(self, addr: &str) -> (r: Self)
        ensures
            r.value()@ == (InterfaceView { remote: Some(addr@), ..self.value()@ }),
    {
        let mut c = self.config;
        c.remote = Some(owned(addr));
        InterfaceBuilder { config: c }
    }

    /// Set the destination port.
    pub fn port(self, port: u16) -> (r: Self)
        ensures
            r.value()@ == (InterfaceView { port: Some(port), ..self.value()@ }),
    {
        let mut c = self.config;
        c.port = Some(port);
        InterfaceBuilder { config: c }
    }

    /// Set the MTU.
    pub fn mtu(self, mtu: u32) -> (r: Self)
        ensures
            r.value()@ == (InterfaceView { mtu: Some(mtu), ..self.value()@ }),
    {
        let mut c = self.config;
        c.mtu = Some(mtu);
        InterfaceBuilder { config: c }
    }

    fn build(self) -> (c: InterfaceConfig)
        ensures
            c == self.value(),
    {
        self.config
    }
}

// ─── Route ──────────────────────────────────────────────────

/// Builder for [`RouteConfig`].
pub struct RouteBuilder {
    config: RouteConfig,
}

impl RouteBuilder {
    pub closed spec fn value(&self) -> RouteConfig {
        self.config
    }

    pub open spec fn blank(&self) -> bool {
        self.value()@ == (RouteConfigView { via: None, dev: None, metric: None })
    }

    fn new() -> (b: Self)
        ensures
            b.blank(),
    {
        RouteBuilder { config: RouteConfig { via: None, dev: None, metric: None } }
    }

    /// Set the next-hop gateway.
    pub fn via(self, gateway: &str) -> (r: Self)
        ensures
            r.value()@ == (RouteConfigView { via: Some(gateway@), ..self.value()@ }),
    {
        let mut c = self.config;
        c.via = Some(owned(gateway));
        RouteBuilder { config: c }
    }

    /// Set the output device.
    pub fn dev(self, dev: &str) -> (r: Self)
        ensures
            r.value()@ == (RouteConfigView { dev: Some(dev@), ..self.value()@ }),
    {
        let mut c = self.config;
        c.dev = Some(owned(dev));
        RouteBuilder { config: c }
    }

    /// Set the route metric.
    pub fn metric(self, metric: u32) -> (r: Self)
        ensures
            r.value()@ == (RouteConfigView { metric: Some(metric), ..self.value()@ }),
    {
        let mut c = self.config;
        c.metric = Some(metric);
        RouteBuilder { config: c }
    }

    fn build(self) -> (c: RouteConfig)
        ensures
            c == self.value(),
    {
        self.config
    }
}

// ─── Link ───────────────────────────────────────────────────

/// Builder for [`Link`].
pub struct LinkBuilder {
    link: Link,
}

impl LinkBuilder {
    pub closed spec fn value(&self) -> Link {
        self.link
    }

    /// A link between the two endpoints with nothing else set.
    pub open spec fn blank_between(&self, ep1: Seq<char>, ep2: Seq<char>) -> bool {
        &&& self.value().endpoints@.len() == 2
        &&& self.value().endpoints@[0]@ == ep1
        &&& self.value().endpoints@[1]@ == ep2
        &&& self.value().addresses is None
        &&& self.value().mtu is None
    }

    fn new(ep1: &str, ep2: &str) -> (b: Self)
        ensures
            b.blank_between(ep1@, ep2@),
    {
        LinkBuilder { link: Link { endpoints: [owned(ep1), owned(ep2)], addresses: None, mtu: None } }
    }

    /// Set addresses for both endpoints in CIDR notation.
    pub fn addresses(self, addr1: &str, addr2: &str) -> (r: Self)
        ensures
            r.value() == (Link { addresses: r.value().addresses, ..self.value() }),
            r.value().addresses matches Some(a) && a@.len() == 2 && a@[0]@ == addr1@
                && a@[1]@ == addr2@,
    {
        let mut l = self.link;
        l.addresses = Some([owned(addr1), owned(addr2)]);
        LinkBuilder { link: l }
    }

    /// Set the MTU for both ends.
    pub fn mtu(self, mtu: u32) -> (r: Self)
        ensures
            r.value() == (Link { mtu: Some(mtu), ..self.value() }),
    {
        let mut l = self.link;
        l.mtu = Some(mtu);
        LinkBuilder { link: l }
    }

    fn build(self) -> (l: Link)
        ensures
            l == self.value(),
    {
        self.link
    }
}

// ─── Port ───────────────────────────────────────────────────

/// Builder for [`PortConfig`].
pub struct PortBuilder {
    config: PortConfig,
}

impl PortBuilder {
    pub closed spec fn value(&self) -> PortConfig {
        self.config
    }

    pub open spec fn blank(&self) -> bool {
        &&& self.value().interface is None
        &&& self.value().vlans@.len() == 0
        &&& self.value().tagged is None
        &&& self.value().pvid is None
        &&& self.value().untagged is None
        &&& self.value().addresses@.len() == 0
    }

    fn new() -> (b: Self)
        ensures
            b.blank(),
    {
        PortBuilder {
            config: PortConfig {
                interface: None,
                vlans: Vec::new(),
                tagged: None,
                pvid: None,
                untagged: None,
                addresses: Vec::new(),
            },
        }
    }

    /// Set the interface name.
    pub fn interface(self, name: &str) -> (r: Self)
        ensures
            r.value() == (PortConfig { interface: r.value().interface, ..self.value() }),
            ostr(r.value().interface) == Some(name@),
    {
        let mut c = self.config;
        c.interface = Some(owned(name));
        PortBuilder { config: c }
    }

    /// Add VLAN IDs this port carries.
    pub fn vlans(self, vids: &[u16]) -> (r: Self)
        ensures
            r.value() == (PortConfig { vlans: r.value().vlans, ..self.value() }),
            r.value().vlans@ == self.value().vlans@ + vids@,
    {
        let mut c = self.config;
        let mut i: usize = 0;
        let ghost start = c.vlans@;
        let ghost c0 = c;
        while i < vids.len()
            invariant
                i <= vids.len(),
                c == (PortConfig { vlans: c.vlans, ..c0 }),
                c.vlans@ == start + vids@.take(i as int),
            decreases vids.len() - i,
        {
            c.vlans.push(vids[i]);
            i = i + 1;
            assert(vids@.take(i as int) =~= vids@.take(i - 1 as int).push(vids@[i - 1]));
        }
        assert(vids@.take(i as int) =~= vids@);
        PortBuilder { config: c }
    }

    /// Set whether this port carries tagged traffic.
    pub fn tagged(self, tagged: bool) -> (r: Self)
        ensures
            r.value() == (PortConfig { tagged: Some(tagged), ..self.value() }),
    {
        let mut c = self.config;
        c.tagged = Some(tagged);
        PortBuilder { config: c }
    }

    /// Set the native VLAN (PVID).
    pub fn pvid(self, pvid: u16) -> (r: Self)
        ensures
            r.value() == (PortConfig { pvid: Some(pvid), ..self.value() }),
    {
        let mut c = self.config;
        c.pvid = Some(pvid);
        PortBuilder { config: c }
    }

    /// Set whether to strip VLAN tags on egress.
    pub fn untagged(self, untagged: bool) -> (r: Self)
        ensures
            r.value() == (PortConfig { untagged: Some(untagged), ..self.value() }),
    {
        let mut c = self.config;
        c.untagged = Some(untagged);
        PortBuilder { config: c }
    }

    /// Add an address.
    pub fn address(self, cidr: &str) -> (r: Self)
        ensures
            r.value() == (PortConfig { addresses: r.value().addresses, ..self.value() }),
            strs(r.value().addresses@) == strs(self.value().addresses@).push(cidr@),
    {
        let mut c = self.config;
        c.addresses.push(owned(cidr));
        let r = PortBuilder { config: c };
        assert(strs(r.value().addresses@) =~= strs(self.value().addresses@).push(cidr@));
        r
    }

    fn build(self) -> (c: PortConfig)
        ensures
            c == self.value(),
    {
        self.config
    }
}

// ─── Impairment ─────────────────────────────────────────────

/// Builder for [`Impairment`].
pub struct ImpairmentBuilder {
    impairment: Impairment,
}

impl ImpairmentBuilder {
    pub closed spec fn value(&self) -> Impairment {
        self.impairment
    }

    pub open spec fn blank(&self) -> bool {
        self.value()@ == (ImpairmentView {
            delay: None, jitter: None, loss: None, rate: None, corrupt: None, reorder: None,
        })
    }

    fn new() -> (b: Self)
        ensures
            b.blank(),
    {
        ImpairmentBuilder { impairment: Impairment::empty() }
    }

    /// Set delay (e.g., "10ms").
    pub fn delay(self, delay: &str) -> (r: Self)
        ensures
            r.value()@ == (ImpairmentView { delay: Some(delay@), ..self.value()@ }),
    {
        let mut i = self.impairment;
        i.delay = Some(owned(delay));
        ImpairmentBuilder { impairment: i }
    }

    /// Set jitter (e.g., "2ms").
    pub fn jitter(self, jitter: &str) -> (r: Self)
        ensures
            r.value()@ == (ImpairmentView { jitter: Some(jitter@), ..self.value()@ }),
    {
        let mut i = self.impairment;
        i.jitter = Some(owned(jitter));
        ImpairmentBuilder { impairment: i }
    }

    /// Set packet loss (e.g., "0.1%").
    pub fn loss(self, loss: &str) -> (r: Self)
        ensures
            r.value()@ == (ImpairmentView { loss: Some(loss@), ..self.value()@ }),
    {
        let mut i = self.impairment;
        i.loss = Some(owned(loss));
        ImpairmentBuilder { impairment: i }
    }

    /// Set rate limit (e.g., "100mbit").
    pub fn rate(self, rate: &str) -> (r: Self)
        ensures
            r.value()@ == (ImpairmentView { rate: Some(rate@), ..self.value()@ }),
    {
        let mut i = self.impairment;
        i.rate = Some(owned(rate));
        ImpairmentBuilder { impairment: i }
    }

    /// Set packet corruption (e.g., "0.01%").
    pub fn corrupt(self, corrupt: &str) -> (r: Self)
        ensures
            r.value()@ == (ImpairmentView { corrupt: Some(corrupt@), ..self.value()@ }),
    {
        let mut i = self.impairment;
        i.corrupt = Some(owned(corrupt));
        ImpairmentBuilder { impairment: i }
    }

    /// Set packet reordering (e.g., "0.5%").
    pub fn reorder(self, reorder: &str) -> (r: Self)
        ensures
            r.value()@ == (ImpairmentView { reorder: Some(reorder@), ..self.value()@ }),
    {
        let mut i = self.impairment;
        i.reorder = Some(owned(reorder));
        ImpairmentBuilder { impairment: i }
    }

    fn build(self) -> (i: Impairment)
        ensures
            i == self.value(),
    {
        self.impairment
    }
}

// ─── Rate limit ─────────────────────────────────────────────

/// Builder for [`RateLimit`].
pub struct RateLimitBuilder {
    rate_limit: RateLimit,
}

impl RateLimitBuilder {
    pub closed spec fn value(&self) -> RateLimit {
        self.rate_limit
    }

    pub open spec fn blank(&self) -> bool {
        self.value()@ == (RateLimitView { egress: None, ingress: None, burst: None })
    }

    fn new() -> (b: Self)
        ensures
            b.blank(),
    {
        RateLimitBuilder { rate_limit: RateLimit { egress: None, ingress: None, burst: None } }
    }

    /// Set egress rate (e.g., "1gbit").
    pub fn egress(self, rate: &str) -> (r: Self)
        ensures
            r.value()@ == (RateLimitView { egress: Some(rate@), ..self.value()@ }),
    {
        let mut l = self.rate_limit;
        l.egress = Some(owned(rate));
        RateLimitBuilder { rate_limit: l }
    }

    /// Set ingress rate (e.g., "1gbit").
    pub fn ingress(self, rate: &str) -> (r: Self)
        ensures
            r.value()@ == (RateLimitView { ingress: Some(rate@), ..self.value()@ }),
    {
        let mut l = self.rate_limit;
        l.ingress = Some(owned(rate));
        RateLimitBuilder { rate_limit: l }
    }

    /// Set burst size (e.g., "10mbit").
    pub fn burst(self, burst: &str) -> (r: Self)
        ensures
            r.value()@ == (RateLimitView { burst: Some(burst@), ..self.value()@ }),
    {
        let mut l = self.rate_limit;
        l.burst = Some(owned(burst));
        RateLimitBuilder { rate_limit: l }
    }

    fn build(self) -> (l: RateLimit)
        ensures
            l == self.value(),
    {
        self.rate_limit
    }
}

// ─── Firewall ───────────────────────────────────────────────

/// Builder for [`FirewallConfig`].
pub struct FirewallBuilder {
    config: FirewallConfig,
}

impl FirewallBuilder {
    pub closed spec fn value(&self) -> FirewallConfig {
        self.config
    }

    pub open spec fn blank(&self) -> bool {
        self.value()@ == (FirewallView { policy: None, rules: Seq::empty() })
    }

    fn new() -> (b: Self)
        ensures
            b.blank(),
    {
        let b = FirewallBuilder { config: FirewallConfig { policy: None, rules: Vec::new() } };
        assert(b.value()@.rules =~= Seq::empty());
        b
    }

    /// Set the default policy ("accept" or "drop").
    pub fn policy(self, policy: &str) -> (r: Self)
        ensures
            r.value()@ == (FirewallView { policy: Some(policy@), ..self.value()@ }),
    {
        let mut c = self.config;
        c.policy = Some(owned(policy));
        FirewallBuilder { config: c }
    }

    /// Add a firewall rule.
    pub fn rule(self, match_expr: &str, action: &str) -> (r: Self)
        ensures
            r.value()@ == (FirewallView {
                rules: self.value()@.rules.push((Some(match_expr@), Some(action@))),
                ..self.value()@
            }),
    {
        let mut c = self.config;
        c.rules.push(FirewallRule { match_expr: Some(owned(match_expr)), action: Some(owned(action)) });
        let r = FirewallBuilder { config: c };
        assert(r.value()@.rules =~= self.value()@.rules.push((Some(match_expr@), Some(action@))));
        r
    }

    fn build(self) -> (c: FirewallConfig)
        ensures
            c == self.value(),
    {
        self.config
    }
}

// ─── WireGuard ──────────────────────────────────────────────

/// Builder for [`WireguardConfig`].
pub struct WireguardBuilder {
    config: WireguardConfig,
}

impl WireguardBuilder {
    pub closed spec fn value(&self) -> WireguardConfig {
        self.config
    }

    pub open spec fn blank(&self) -> bool {
        self.value()@ == (WireguardView {
            private_key: None, listen_port: None, fwmark: None, addresses: Seq::empty(), peers: Seq::empty(),
        })
    }

    fn new() -> (b: Self)
        ensures
            b.blank(),
    {
        let b = WireguardBuilder {
            config: WireguardConfig {
                private_key: None,
                listen_port: None,
                fwmark: None,
                addresses: Vec::new(),
                peers: Vec::new(),
            },
        };
        assert(b.value()@.addresses =~= Seq::empty());
        assert(b.value()@.peers =~= Seq::empty());
        b
    }

    /// Set the private key ("auto" to auto-generate).
    pub fn private_key(self, key: &str) -> (r: Self)
        ensures
            r.value()@ == (WireguardView { private_key: Some(key@), ..self.value()@ }),
    {
        let mut c = self.config;
        c.private_key = Some(owned(key));
        WireguardBuilder { config: c }
    }

    /// Set the listen port.
    pub fn listen_port(self, port: u16) -> (r: Self)
        ensures
            r.value()@ == (WireguardView { listen_port: Some(port), ..self.value()@ }),
    {
        let mut c = self.config;
        c.listen_port = Some(port);
        WireguardBuilder { config: c }
    }

    /// Add an address in CIDR notation.
    pub fn address(self, cidr: &str) -> (r: Self)
        ensures
            r.value()@ == (WireguardView {
                addresses: self.value()@.addresses.push(cidr@),
                ..self.value()@
            }),
    {
        let mut c = self.config;
        c.addresses.push(owned(cidr));
        let r = WireguardBuilder { config: c };
        assert(r.value()@.addresses =~= self.value()@.addresses.push(cidr@));
        r
    }

    /// Add a peer node name.
    pub fn peer(self, node: &str) -> (r: Self)
        ensures
            r.value()@ == (WireguardView { peers: self.value()@.peers.push(node@), ..self.value()@ }),
    {
        let mut c = self.config;
        c.peers.push(owned(node));
        let r = WireguardBuilder { config: c };
        assert(r.value()@.peers =~= self.value()@.peers.push(node@));
        r
    }

    fn build(self) -> (c: WireguardConfig)
        ensures
            c == self.value(),
    {
        self.config
    }
}

// ─── VRF ────────────────────────────────────────────────────

/// Builder for [`VrfConfig`].
pub struct VrfBuilder {
    config: VrfConfig,
}

impl VrfBuilder {
    #[verifier::type_invariant]
    closed spec fn inv(&self) -> bool {
        self.config.wf()
    }

    pub closed spec fn value(&self) -> VrfConfig {
        self.config
    }

    pub open spec fn blank(&self) -> bool {
        self.value().blank()
    }

    fn new() -> (b: Self)
        ensures
            b.blank(),
    {
        VrfBuilder { config: VrfConfig::empty() }
    }

    /// Set the routing table ID.
    pub fn table(self, table: u32) -> (r: Self)
        ensures
            r.value() == (VrfConfig { table, ..self.value() }),
    {
        proof { use_type_invariant(&self); }
        let mut c = self.config;
        c.table = table;
        VrfBuilder { config: c }
    }

    /// Add an interface to enslave.
    pub fn interface(self, iface: &str) -> (r: Self)
        ensures
            r.value() == (VrfConfig { interfaces: r.value().interfaces, ..self.value() }),
            strs(r.value().interfaces@) == strs(self.value().interfaces@).push(iface@),
    {
        proof { use_type_invariant(&self); }
        let mut c = self.config;
        c.interfaces.push(owned(iface));
        let r = VrfBuilder { config: c };
        assert(strs(r.value().interfaces@) =~= strs(self.value().interfaces@).push(iface@));
        r
    }

    /// Add a route within this VRF.
    pub fn route(self, dest: &str, f: impl FnOnce(RouteBuilder) -> RouteBuilder) -> (r: Self)
        requires
            forall|b: RouteBuilder| b.blank() ==> call_requires(f, (b,)),
        ensures
            exists|b0: RouteBuilder, b: RouteBuilder|
                b0.blank() && call_ensures(f, (b0,), b)
                && r.value() == (VrfConfig { routes: r.value().routes, ..self.value() })
                && r.value().routes.view() == self.value().routes.view().insert(dest@, b.value()),
    {
        proof { use_type_invariant(&self); }
        let b0 = RouteBuilder::new();
        let ghost g0 = b0;
        let b = f(b0);
        let ghost g = b;
        let mut c = self.config;
        c.routes.insert(owned(dest), b.build());
        let r = VrfBuilder { config: c };
        assert(call_ensures(f, (g0,), g));
        r
    }

    fn build(self) -> (c: VrfConfig)
        ensures
            c == self.value(),
            c.wf(),
    {
        proof { use_type_invariant(&self); }
        self.config
    }
}

// ─── Profile ────────────────────────────────────────────────

/// Builder for [`Profile`].
pub struct ProfileBuilder {
    profile: Profile,
}

impl ProfileBuilder {
    #[verifier::type_invariant]
    closed spec fn inv(&self) -> bool {
        self.profile.wf()
    }

    pub closed spec fn value(&self) -> Profile {
        self.profile
    }

    pub open spec fn blank(&self) -> bool {
        self.value().blank()
    }

    fn new() -> (b: Self)
        ensures
            b.blank(),
    {
        ProfileBuilder { profile: Profile::empty() }
    }

    /// Add a sysctl key-value pair.
    pub fn sysctl(self, key: &str, value: &str) -> (r: Self)
        ensures
            r.value() == (Profile { sysctls: r.value().sysctls, ..self.value() }),
            str_vals(r.value().sysctls.view()) == str_vals(self.value().sysctls.view()).insert(key@, value@),
    {
        proof { use_type_invariant(&self); }
        let mut p = self.profile;
        let v = owned(value);
        let ghost vv = v;
        p.sysctls.insert(owned(key), v);
        assert(str_vals(p.sysctls.view()) =~= str_vals(self.profile.sysctls.view()).insert(key@, value@));
        ProfileBuilder { profile: p }
    }

    /// Set the firewall configuration.
    pub fn firewall(self, f: impl FnOnce(FirewallBuilder) -> FirewallBuilder) -> (r: Self)
        requires
            forall|b: FirewallBuilder| b.blank() ==> call_requires(f, (b,)),
        ensures
            exists|b0: FirewallBuilder, b: FirewallBuilder|
                b0.blank() && call_ensures(f, (b0,), b)
                && r.value() == (Profile { firewall: Some(b.value()), ..self.value() }),
    {
        proof { use_type_invariant(&self); }
        let b0 = FirewallBuilder::new();
        let ghost g0 = b0;
        let b = f(b0);
        let ghost g = b;
        let mut p = self.profile;
        p.firewall = Some(b.build());
        assert(call_ensures(f, (g0,), g));
        ProfileBuilder { profile: p }
    }

    fn build(self) -> (p: Profile)
        ensures
            p == self.value(),
            p.wf(),
    {
        proof { use_type_invariant(&self); }
        self.profile
    }
}

// ─── Node ───────────────────────────────────────────────────

/// Builder for [`Node`].
pub struct NodeBuilder {
    node: Node,
}

/// The views of a sequence of string slices.
pub open spec fn slice_strs(s: Seq<&str>) -> Seq<Seq<char>> {
    s.map_values(|x: &str| x@)
}

fn owned_all(cmd: &[&str]) -> (v: Vec<String>)
    ensures
        strs(v@) == slice_strs(cmd@),
{
    let mut v: Vec<String> = Vec::new();
    let mut i: usize = 0;
    while i < cmd.len()
        invariant
            i <= cmd.len(),
            strs(v@) == slice_strs(cmd@).take(i as int),
        decreases cmd.len() - i,
    {
        let ghost prev = v@;
        let s = owned(cmd[i]);
        assert(s@ == slice_strs(cmd@)[i as int]);
        v.push(s);
        i = i + 1;
        assert(v@ == prev.push(s));
        assert(strs(prev).len() == prev.len());
        assert(prev.len() == i - 1);
        assert forall|j: int| 0 <= j < i implies #[trigger] strs(v@)[j] == slice_strs(cmd@).take(i as int)[j] by {
            assert(strs(v@)[j] == v@[j]@);
            if j < i - 1 {
                assert(v@[j] == prev[j]);
                assert(strs(prev)[j] == prev[j]@);
                assert(strs(prev)[j] == slice_strs(cmd@).take(i - 1 as int)[j]);
            } else {
                assert(v@[j] == s);
            }
        }
        assert(strs(v@) =~= slice_strs(cmd@).take(i as int));
    }
    assert(slice_strs(cmd@).take(i as int) =~= slice_strs(cmd@));
    v
}

impl NodeBuilder {
    #[verifier::type_invariant]
    closed spec fn inv(&self) -> bool {
        self.node.wf()
    }

    pub closed spec fn value(&self) -> Node {
        self.node
    }

    pub open spec fn blank(&self) -> bool {
        self.value().blank()
    }

    fn new() -> (b: Self)
        ensures
            b.blank(),
    {
        NodeBuilder { node: Node::empty() }
    }

    /// Set the profile to inherit from.
    pub fn profile(self, name: &str) -> (r: Self)
        ensures
            r.value() == (Node { profile: r.value().profile, ..self.value() }),
            ostr(r.value().profile) == Some(name@),
    {
        proof { use_type_invariant(&self); }
        let mut n = self.node;
        n.profile = Some(owned(name));
        NodeBuilder { node: n }
    }

    /// Add a sysctl key-value pair.
    pub fn sysctl(self, key: &str, value: &str) -> (r: Self)
        ensures
            r.value() == (Node { sysctls: r.value().sysctls, ..self.value() }),
            str_vals(r.value().sysctls.view()) == str_vals(self.value().sysctls.view()).insert(key@, value@),
    {
        proof { use_type_invariant(&self); }
        let mut n = self.node;
        n.sysctls.insert(owned(key), owned(value));
        assert(str_vals(n.sysctls.view()) =~= str_vals(self.node.sysctls.view()).insert(key@, value@));
        NodeBuilder { node: n }
    }

    /// Add an explicit interface.
    pub fn interface(self, name: &str, f: impl FnOnce(InterfaceBuilder) -> InterfaceBuilder) -> (r: Self)
        requires
            forall|b: InterfaceBuilder| b.blank() ==> call_requires(f, (b,)),
        ensures
            exists|b0: InterfaceBuilder, b: InterfaceBuilder|
                b0.blank() && call_ensures(f, (b0,), b)
                && r.value() == (Node { interfaces: r.value().interfaces, ..self.value() })
                && r.value().interfaces.view() == self.value().interfaces.view().insert(name@, b.value()),
    {
        proof { use_type_invariant(&self); }
        let b0 = InterfaceBuilder::new();
        let ghost g0 = b0;
        let b = f(b0);
        let ghost g = b;
        let mut n = self.node;
        n.interfaces.insert(owned(name), b.build());
        assert(call_ensures(f, (g0,), g));
        NodeBuilder { node: n }
    }

    /// Add a route.
    pub fn route(self, dest: &str, f: impl FnOnce(RouteBuilder) -> RouteBuilder) -> (r: Self)
        requires
            forall|b: RouteBuilder| b.blank() ==> call_requires(f, (b,)),
        ensures
            exists|b0: RouteBuilder, b: RouteBuilder|
                b0.blank() && call_ensures(f, (b0,), b)
                && r.value() == (Node { routes: r.value().routes, ..self.value() })
                && r.value().routes.view() == self.value().routes.view().insert(dest@, b.value()),
    {
        proof { use_type_invariant(&self); }
        let b0 = RouteBuilder::new();
        let ghost g0 = b0;
        let b = f(b0);
        let ghost g = b;
        let mut n = self.node;
        n.routes.insert(owned(dest), b.build());
        assert(call_ensures(f, (g0,), g));
        NodeBuilder { node: n }
    }

    /// Set the firewall configuration.
    pub fn firewall(self, f: impl FnOnce(FirewallBuilder) -> FirewallBuilder) -> (r: Self)
        requires
            forall|b: FirewallBuilder| b.blank() ==> call_requires(f, (b,)),
        ensures
            exists|b0: FirewallBuilder, b: FirewallBuilder|
                b0.blank() && call_ensures(f, (b0,), b)
                && r.value() == (Node { firewall: Some(b.value()), ..self.value() }),
    {
        proof { use_type_invariant(&self); }
        let b0 = FirewallBuilder::new();
        let ghost g0 = b0;
        let b = f(b0);
        let ghost g = b;
        let mut n = self.node;
        n.firewall = Some(b.build());
        assert(call_ensures(f, (g0,), g));
        NodeBuilder { node: n }
    }

    /// Add a background process.
    pub fn exec_background(self, cmd: &[&str]) -> (r: Self)
        ensures
            r.value() == (Node { execs: r.value().execs, ..self.value() }),
            r.value().execs@.len() == self.value().execs@.len() + 1,
            r.value().execs@.drop_last() == self.value().execs@,
            r.value().execs@.last().background,
            strs(r.value().execs@.last().cmd@) == slice_strs(cmd@),
    {
        proof { use_type_invariant(&self); }
        let mut n = self.node;
        n.execs.push(ExecConfig { cmd: owned_all(cmd), background: true });
        assert(n.execs@.drop_last() =~= self.node.execs@);
        NodeBuilder { node: n }
    }

    /// Add a foreground process (runs during deploy).
    pub fn exec(self, cmd: &[&str]) -> (r: Self)
        ensures
            r.value() == (Node { execs: r.value().execs, ..self.value() }),
            r.value().execs@.len() == self.value().execs@.len() + 1,
            r.value().execs@.drop_last() == self.value().execs@,
            !r.value().execs@.last().background,
            strs(r.value().execs@.last().cmd@) == slice_strs(cmd@),
    {
        proof { use_type_invariant(&self); }
        let mut n = self.node;
        n.execs.push(ExecConfig { cmd: owned_all(cmd), background: false });
        assert(n.execs@.drop_last() =~= self.node.execs@);
        NodeBuilder { node: n }
    }

    /// Add a VRF.
    pub fn vrf(self, name: &str, f: impl FnOnce(VrfBuilder) -> VrfBuilder) -> (r: Self)
        requires
            forall|b: VrfBuilder| b.blank() ==> call_requires(f, (b,)),
        ensures
            exists|b0: VrfBuilder, b: VrfBuilder|
                b0.blank() && call_ensures(f, (b0,), b)
                && r.value() == (Node { vrfs: r.value().vrfs, ..self.value() })
                && r.value().vrfs.view() == self.value().vrfs.view().insert(name@, b.value()),
    {
        proof { use_type_invariant(&self); }
        let b0 = VrfBuilder::new();
        let ghost g0 = b0;
        let b = f(b0);
        let ghost g = b;
        let mut n = self.node;
        let v = b.build();
        n.vrfs.insert(owned(name), v);
        assert(call_ensures(f, (g0,), g));
        NodeBuilder { node: n }
    }

    /// Add a WireGuard interface.
    pub fn wireguard(self, name: &str, f: impl FnOnce(WireguardBuilder) -> WireguardBuilder) -> (r: Self)
        requires
            forall|b: WireguardBuilder| b.blank() ==> call_requires(f, (b,)),
        ensures
            exists|b0: WireguardBuilder, b: WireguardBuilder|
                b0.blank() && call_ensures(f, (b0,), b)
                && r.value() == (Node { wireguard: r.value().wireguard, ..self.value() })
                && r.value().wireguard.view() == self.value().wireguard.view().insert(name@, b.value()),
    {
        proof { use_type_invariant(&self); }
        let b0 = WireguardBuilder::new();
        let ghost g0 = b0;
        let b = f(b0);
        let ghost g = b;
        let mut n = self.node;
        n.wireguard.insert(owned(name), b.build());
        assert(call_ensures(f, (g0,), g));
        NodeBuilder { node: n }
    }

    fn build(self) -> (n: Node)
        ensures
            n == self.value(),
            n.wf(),
    {
        proof { use_type_invariant(&self); }
        self.node
    }
}

// ─── Network ────────────────────────────────────────────────

/// Builder for [`Network`].
pub struct NetworkBuilder {
    network: Network,
}

impl NetworkBuilder {
    #[verifier::type_invariant]
    closed spec fn inv(&self) -> bool {
        self.network.wf()
    }

    pub closed spec fn value(&self) -> Network {
        self.network
    }

    pub open spec fn blank(&self) -> bool {
        self.value().blank()
    }

    fn new() -> (b: Self)
        ensures
            b.blank(),
    {
        NetworkBuilder { network: Network::empty() }
    }

    /// Set the network kind (default: "bridge").
    pub fn kind(self, kind: &str) -> (r: Self)
        ensures
            r.value() == (Network { kind: r.value().kind, ..self.value() }),
            ostr(r.value().kind) == Some(kind@),
    {
        proof { use_type_invariant(&self); }
        let mut n = self.network;
        n.kind = Some(owned(kind));
        NetworkBuilder { network: n }
    }

    /// Enable VLAN filtering.
    pub fn vlan_filtering(self, enabled: bool) -> (r: Self)
        ensures
            r.value() == (Network { vlan_filtering: Some(enabled), ..self.value() }),
    {
        proof { use_type_invariant(&self); }
        let mut n = self.network;
        n.vlan_filtering = Some(enabled);
        NetworkBuilder { network: n }
    }

    /// Set the MTU.
    pub fn mtu(self, mtu: u32) -> (r: Self)
        ensures
            r.value() == (Network { mtu: Some(mtu), ..self.value() }),
    {
        proof { use_type_invariant(&self); }
        let mut n = self.network;
        n.mtu = Some(mtu);
        NetworkBuilder { network: n }
    }

    /// Set the subnet for auto-address assignment.
    pub fn subnet(self, subnet: &str) -> (r: Self)
        ensures
            r.value() == (Network { subnet: r.value().subnet, ..self.value() }),
            ostr(r.value().subnet) == Some(subnet@),
    {
        proof { use_type_invariant(&self); }
        let mut n = self.network;
        n.subnet = Some(owned(subnet));
        NetworkBuilder { network: n }
    }

    /// Add a member endpoint.
    pub fn member(self, endpoint: &str) -> (r: Self)
        ensures
            r.value() == (Network { members: r.value().members, ..self.value() }),
            strs(r.value().members@) == strs(self.value().members@).push(endpoint@),
    {
        proof { use_type_invariant(&self); }
        let mut n = self.network;
        n.members.push(owned(endpoint));
        let r = NetworkBuilder { network: n };
        assert(strs(r.value().members@) =~= strs(self.value().members@).push(endpoint@));
        r
    }

    /// Add a VLAN definition (replacing an earlier one with the same id).
    pub fn vlan(self, vid: u16, name: Option<&str>) -> (r: Self)
        ensures
            r.value() == (Network { vlans: r.value().vlans, ..self.value() }),
            vid_map(r.value().vlans@).dom() == vid_map(self.value().vlans@).dom().insert(vid),
            ostr(vid_map(r.value().vlans@)[vid].name) == (match name {
                Some(s) => Some(s@),
                None => None::<Seq<char>>,
            }),
            forall|k: u16| k != vid && #[trigger] vid_map(self.value().vlans@).contains_key(k)
                ==> vid_map(r.value().vlans@)[k] == vid_map(self.value().vlans@)[k],
    {
        proof { use_type_invariant(&self); }
        let mut n = self.network;
        let cfg = VlanConfig {
            name: match name {
                Some(s) => Some(owned(s)),
                None => None,
            },
        };
        set_vlan(&mut n.vlans, vid, cfg);
        NetworkBuilder { network: n }
    }

    /// Add a port configuration.
    pub fn port(self, node: &str, f: impl FnOnce(PortBuilder) -> PortBuilder) -> (r: Self)
        requires
            forall|b: PortBuilder| b.blank() ==> call_requires(f, (b,)),
        ensures
            exists|b0: PortBuilder, b: PortBuilder|
                b0.blank() && call_ensures(f, (b0,), b)
                && r.value() == (Network { ports: r.value().ports, ..self.value() })
                && r.value().ports.view() == self.value().ports.view().insert(node@, b.value()),
    {
        proof { use_type_invariant(&self); }
        let b0 = PortBuilder::new();
        let ghost g0 = b0;
        let b = f(b0);
        let ghost g = b;
        let mut n = self.network;
        n.ports.insert(owned(node), b.build());
        assert(call_ensures(f, (g0,), g));
        NetworkBuilder { network: n }
    }

    fn build(self) -> (n: Network)
        ensures
            n == self.value(),
            n.wf(),
    {
        proof { use_type_invariant(&self); }
        self.network
    }
}

// ─── Lab ────────────────────────────────────────────────────

/// Top-level lab builder.
pub struct Lab {
    topology: Topology,
}

/// The two topologies differ at most in the lab settings.
pub open spec fn same_tables(a: Topology, b: Topology) -> bool {
    &&& a.profiles == b.profiles
    &&& a.nodes == b.nodes
    &&& a.links == b.links
    &&& a.networks == b.networks
    &&& a.impairments == b.impairments
    &&& a.rate_limits == b.rate_limits
}

impl Lab {
    #[verifier::type_invariant]
    closed spec fn inv(&self) -> bool {
        self.topology.wf()
    }

    /// The topology built so far.
    pub closed spec fn value(&self) -> Topology {
        self.topology
    }

    /// Create a new lab with the given name.
    pub fn new(name: &str) -> (r: Self)
        ensures
            r.value().lab.name@ == name@,
            r.value().lab.description is None,
            r.value().lab.prefix is None,
            r.value().lab.routing == crate::types::RoutingMode::Manual,
            r.value().lab.runtime is None,
            r.value().profiles.keys().len() == 0,
            r.value().nodes.keys().len() == 0,
            r.value().links@.len() == 0,
            r.value().networks.keys().len() == 0,
            r.value().impairments.keys().len() == 0,
            r.value().rate_limits.keys().len() == 0,
    {
        Lab { topology: Topology::named(owned(name)) }
    }

    /// Set the lab description.
    pub fn description(self, desc: &str) -> (r: Self)
        ensures
            same_tables(r.value(), self.value()),
            r.value().lab == (LabConfig { description: r.value().lab.description, ..self.value().lab }),
            ostr(r.value().lab.description) == Some(desc@),
    {
        proof { use_type_invariant(&self); }
        let mut t = self.topology;
        t.lab.description = Some(owned(desc));
        Lab { topology: t }
    }

    /// Set the namespace prefix (defaults to lab name).
    pub fn prefix(self, prefix: &str) -> (r: Self)
        ensures
            same_tables(r.value(), self.value()),
            r.value().lab == (LabConfig { prefix: r.value().lab.prefix, ..self.value().lab }),
            ostr(r.value().lab.prefix) == Some(prefix@),
    {
        proof { use_type_invariant(&self); }
        let mut t = self.topology;
        t.lab.prefix = Some(owned(prefix));
        Lab { topology: t }
    }

    /// Add a reusable profile.
    pub fn profile(self, name: &str, f: impl FnOnce(ProfileBuilder) -> ProfileBuilder) -> (r: Self)
        requires
            forall|b: ProfileBuilder| b.blank() ==> call_requires(f, (b,)),
        ensures
            exists|b0: ProfileBuilder, b: ProfileBuilder|
                b0.blank() && call_ensures(f, (b0,), b)
                && r.value() == (Topology { profiles: r.value().profiles, ..self.value() })
                && r.value().profiles.view() == self.value().profiles.view().insert(name@, b.value()),
    {
        proof { use_type_invariant(&self); }
        let b0 = ProfileBuilder::new();
        let ghost g0 = b0;
        let b = f(b0);
        let ghost g = b;
        let mut t = self.topology;
        t.profiles.insert(owned(name), b.build());
        assert(call_ensures(f, (g0,), g));
        Lab { topology: t }
    }

    /// Add a node.
    pub fn node(self, name: &str, f: impl FnOnce(NodeBuilder) -> NodeBuilder) -> (r: Self)
        requires
            forall|b: NodeBuilder| b.blank() ==> call_requires(f, (b,)),
        ensures
            exists|b0: NodeBuilder, b: NodeBuilder|
                b0.blank() && call_ensures(f, (b0,), b)
                && r.value() == (Topology { nodes: r.value().nodes, ..self.value() })
                && r.value().nodes.view() == self.value().nodes.view().insert(name@, b.value()),
    {
        proof { use_type_invariant(&self); }
        let b0 = NodeBuilder::new();
        let ghost g0 = b0;
        let b = f(b0);
        let ghost g = b;
        let mut t = self.topology;
        t.nodes.insert(owned(name), b.build());
        assert(call_ensures(f, (g0,), g));
        Lab { topology: t }
    }

    /// Add a point-to-point link between two endpoints.
    pub fn link(self, ep1: &str, ep2: &str, f: impl FnOnce(LinkBuilder) -> LinkBuilder) -> (r: Self)
        requires
            forall|b: LinkBuilder| b.blank_between(ep1@, ep2@) ==> call_requires(f, (b,)),
        ensures
            exists|b0: LinkBuilder, b: LinkBuilder|
                b0.blank_between(ep1@, ep2@) && call_ensures(f, (b0,), b)
                && r.value() == (Topology { links: r.value().links, ..self.value() })
                && r.value().links@ == self.value().links@.push(b.value()),
    {
        proof { use_type_invariant(&self); }
        let b0 = LinkBuilder::new(ep1, ep2);
        let ghost g0 = b0;
        let b = f(b0);
        let ghost g = b;
        let mut t = self.topology;
        t.links.push(b.build());
        assert(call_ensures(f, (g0,), g));
        Lab { topology: t }
    }

    /// Add a shared L2 network (bridge).
    pub fn network(self, name: &str, f: impl FnOnce(NetworkBuilder) -> NetworkBuilder) -> (r: Self)
        requires
            forall|b: NetworkBuilder| b.blank() ==> call_requires(f, (b,)),
        ensures
            exists|b0: NetworkBuilder, b: NetworkBuilder|
                b0.blank() && call_ensures(f, (b0,), b)
                && r.value() == (Topology { networks: r.value().networks, ..self.value() })
                && r.value().networks.view() == self.value().networks.view().insert(name@, b.value()),
    {
        proof { use_type_invariant(&self); }
        let b0 = NetworkBuilder::new();
        let ghost g0 = b0;
        let b = f(b0);
        let ghost g = b;
        let mut t = self.topology;
        t.networks.insert(owned(name), b.build());
        assert(call_ensures(f, (g0,), g));
        Lab { topology: t }
    }

    /// Add a netem impairment to an endpoint.
    pub fn impair(self, endpoint: &str, f: impl FnOnce(ImpairmentBuilder) -> ImpairmentBuilder) -> (r: Self)
        requires
            forall|b: ImpairmentBuilder| b.blank() ==> call_requires(f, (b,)),
        ensures
            exists|b0: ImpairmentBuilder, b: ImpairmentBuilder|
                b0.blank() && call_ensures(f, (b0,), b)
                && r.value() == (Topology { impairments: r.value().impairments, ..self.value() })
                && r.value().impairments.view() == self.value().impairments.view().insert(endpoint@, b.value()),
    {
        proof { use_type_invariant(&self); }
        let b0 = ImpairmentBuilder::new();
        let ghost g0 = b0;
        let b = f(b0);
        let ghost g = b;
        let mut t = self.topology;
        t.impairments.insert(owned(endpoint), b.build());
        assert(call_ensures(f, (g0,), g));
        Lab { topology: t }
    }

    /// Add rate limiting to an endpoint.
    pub fn rate_limit(self, endpoint: &str, f: impl FnOnce(RateLimitBuilder) -> RateLimitBuilder) -> (r: Self)
        requires
            forall|b: RateLimitBuilder| b.blank() ==> call_requires(f, (b,)),
        ensures
            exists|b0: RateLimitBuilder, b: RateLimitBuilder|
                b0.blank() && call_ensures(f, (b0,), b)
                && r.value() == (Topology { rate_limits: r.value().rate_limits, ..self.value() })
                && r.value().rate_limits.view() == self.value().rate_limits.view().insert(endpoint@, b.value()),
    {
        proof { use_type_invariant(&self); }
        let b0 = RateLimitBuilder::new();
        let ghost g0 = b0;
        let b = f(b0);
        let ghost g = b;
        let mut t = self.topology;
        t.rate_limits.insert(owned(endpoint), b.build());
        assert(call_ensures(f, (g0,), g));
        Lab { topology: t }
    }

    /// Finalize and return the topology.
    pub fn build(self) -> (t: Topology)
        ensures
            t == self.value(),
            t.wf(),
    {
        proof { use_type_invariant(&self); }
        self.topology
    }
}

} // verus!
