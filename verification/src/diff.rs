//! Topology diff engine: compares two topologies and produces a structured
//! change set, every list in key order.
use vstd::prelude::*;
use crate::text::{debug_str, debug_string};
use crate::map::{StrMap, UnionStep, union_walk, merge, sorted_of, lemma_sorted_unique};
use crate::types::{
    Impairment, Link, NetworkImpairment, RouteConfig, Topology, Node, Network, strs, str_vals,
};

verus! {

/// A change to a single static route on a single node.
#[derive(Debug)]
pub struct RouteChange {
    pub node: String,
    pub dest: String,
    /// `None`: remove the route. `Some`: add it (`was_present == false`)
    /// or replace it (the old configuration differs).
    pub desired: Option<RouteConfig>,
    pub was_present: bool,
}

/// Sysctl changes on a single node. Removed keys are reported, never reset.
#[derive(Debug)]
pub struct SysctlChange {
    pub node: String,
    pub added: Vec<(String, String)>,
    /// (key, old, new)
    pub changed: Vec<(String, String, String)>,
    pub removed: Vec<String>,
}

/// A change to the impairment on one endpoint.
#[derive(Debug)]
pub struct ImpairmentChange {
    pub endpoint: String,
    pub old: Impairment,
    pub new: Impairment,
}

/// A change to the per-peer impairer on `(network, src_node)`; `desired`
/// `None` removes the impairer on that source.
#[derive(Debug)]
pub struct NetworkImpairerChange {
    pub network: String,
    pub src_node: String,
    pub desired: Option<Vec<NetworkImpairment>>,
}

/// A structured diff between two topologies.
#[derive(Debug)]
pub struct TopologyDiff {
    pub nodes_added: Vec<String>,
    pub nodes_removed: Vec<String>,
    pub links_added: Vec<Link>,
    pub links_removed: Vec<Link>,
    pub impairments_changed: Vec<ImpairmentChange>,
    pub impairments_added: Vec<(String, Impairment)>,
    pub impairments_removed: Vec<String>,
    pub network_impairs_changed: Vec<NetworkImpairerChange>,
    pub routes_changed: Vec<RouteChange>,
    pub sysctls_changed: Vec<SysctlChange>,
}

pub struct RouteChangeView {
    pub node: Seq<char>,
    pub dest: Seq<char>,
    pub desired: Option<RouteConfig>,
    pub was_present: bool,
}

impl View for RouteChange {
    type V = RouteChangeView;

    open spec fn view(&self) -> RouteChangeView {
        RouteChangeView { node: self.node@, dest: self.dest@, desired: self.desired, was_present: self.was_present }
    }
}

pub struct SysctlChangeView {
    pub node: Seq<char>,
    pub added: Seq<(Seq<char>, Seq<char>)>,
    pub changed: Seq<(Seq<char>, Seq<char>, Seq<char>)>,
    pub removed: Seq<Seq<char>>,
}

impl View for SysctlChange {
    type V = SysctlChangeView;

    open spec fn view(&self) -> SysctlChangeView {
        SysctlChangeView {
            node: self.node@,
            added: self.added@.map_values(|p: (String, String)| (p.0@, p.1@)),
            changed: self.changed@.map_values(|p: (String, String, String)| (p.0@, p.1@, p.2@)),
            removed: strs(self.removed@),
        }
    }
}

impl SysctlChange {
    /// Whether nothing was added, changed or removed.
    pub fn is_empty(&self) -> (b: bool)
        ensures
            b == (self.added@.len() == 0 && self.changed@.len() == 0 && self.removed@.len() == 0),
    {
        self.added.len() == 0 && self.changed.len() == 0 && self.removed.len() == 0
    }
}

/// Impairment change as (endpoint, old, new).
pub open spec fn imp_change_view(c: ImpairmentChange) -> (Seq<char>, Impairment, Impairment) {
    (c.endpoint@, c.old, c.new)
}

/// Network impairer change as (network, source node, desired rules).
pub open spec fn net_change_view(c: NetworkImpairerChange) -> (Seq<char>, Seq<char>, Option<Seq<NetworkImpairment>>) {
    (c.network@, c.src_node@, match c.desired { Some(v) => Some(v@), None => None })
}

// ─── Specification ──────────────────────────────────────────

/// The first `n` keys of `ks` that `dom` lacks, in order.
pub open spec fn absent_keys(ks: Seq<Seq<char>>, dom: Set<Seq<char>>, n: int) -> Seq<Seq<char>>
    decreases n,
{
    if n <= 0 {
        Seq::empty()
    } else if !dom.contains(ks[n - 1]) {
        absent_keys(ks, dom, n - 1).push(ks[n - 1])
    } else {
        absent_keys(ks, dom, n - 1)
    }
}

/// Whether some link of `ls` joins the endpoint pair `ends`.
pub open spec fn has_ends(ls: Seq<Link>, ends: Seq<Seq<char>>) -> bool {
    exists|j: int| 0 <= j < ls.len() && ls[j].ends() == ends
}

/// The first `n` links of `ls` whose endpoint pair no link of `other` has.
pub open spec fn absent_links(ls: Seq<Link>, other: Seq<Link>, n: int) -> Seq<Link>
    decreases n,
{
    if n <= 0 {
        Seq::empty()
    } else if !has_ends(other, ls[n - 1].ends()) {
        absent_links(ls, other, n - 1).push(ls[n - 1])
    } else {
        absent_links(ls, other, n - 1)
    }
}

/// Impairments present in the first `n` desired entries but not currently.
pub open spec fn imps_added(d: StrMap<Impairment>, c: StrMap<Impairment>, n: int) -> Seq<(Seq<char>, Impairment)>
    decreases n,
{
    if n <= 0 {
        Seq::empty()
    } else if !c.view().contains_key(d.keys()[n - 1]) {
        imps_added(d, c, n - 1).push((d.keys()[n - 1], d.vals()[n - 1]))
    } else {
        imps_added(d, c, n - 1)
    }
}

/// Impairments of the first `n` desired entries whose settings differ from
/// the current ones.
pub open spec fn imps_changed(d: StrMap<Impairment>, c: StrMap<Impairment>, n: int) -> Seq<(Seq<char>, Impairment, Impairment)>
    decreases n,
{
    if n <= 0 {
        Seq::empty()
    } else if c.view().contains_key(d.keys()[n - 1]) && c.view()[d.keys()[n - 1]]@ != d.vals()[n - 1]@ {
        imps_changed(d, c, n - 1).push((d.keys()[n - 1], c.view()[d.keys()[n - 1]], d.vals()[n - 1]))
    } else {
        imps_changed(d, c, n - 1)
    }
}

/// Route changes of one node over the first `n` destinations of the sorted
/// union of its current and desired route tables.
pub open spec fn node_route_changes(node: Seq<char>, c: StrMap<RouteConfig>, d: StrMap<RouteConfig>, n: int) -> Seq<RouteChangeView>
    decreases n,
{
    if n <= 0 {
        Seq::empty()
    } else {
        let k = merge(c.keys(), d.keys())[n - 1];
        let prev = node_route_changes(node, c, d, n - 1);
        if d.view().contains_key(k) && !c.view().contains_key(k) {
            prev.push(RouteChangeView { node, dest: k, desired: Some(d.view()[k]), was_present: false })
        } else if d.view().contains_key(k) && c.view()[k]@ != d.view()[k]@ {
            prev.push(RouteChangeView { node, dest: k, desired: Some(d.view()[k]), was_present: true })
        } else if !d.view().contains_key(k) && c.view().contains_key(k) {
            prev.push(RouteChangeView { node, dest: k, desired: None, was_present: true })
        } else {
            prev
        }
    }
}

/// Route changes of the first `n` desired nodes that also exist currently.
pub open spec fn route_changes(c: StrMap<Node>, d: StrMap<Node>, n: int) -> Seq<RouteChangeView>
    decreases n,
{
    if n <= 0 {
        Seq::empty()
    } else {
        let name = d.keys()[n - 1];
        let prev = route_changes(c, d, n - 1);
        if c.view().contains_key(name) {
            let cr = c.view()[name].routes;
            let dr = d.vals()[n - 1].routes;
            prev + node_route_changes(name, cr, dr, merge(cr.keys(), dr.keys()).len() as int)
        } else {
            prev
        }
    }
}

/// Desired sysctls of the first `n` entries that are not set currently.
pub open spec fn sys_added(c: StrMap<String>, d: StrMap<String>, n: int) -> Seq<(Seq<char>, Seq<char>)>
    decreases n,
{
    if n <= 0 {
        Seq::empty()
    } else if !c.view().contains_key(d.keys()[n - 1]) {
        sys_added(c, d, n - 1).push((d.keys()[n - 1], d.vals()[n - 1]@))
    } else {
        sys_added(c, d, n - 1)
    }
}

/// Desired sysctls of the first `n` entries whose value changes.
pub open spec fn sys_changed(c: StrMap<String>, d: StrMap<String>, n: int) -> Seq<(Seq<char>, Seq<char>, Seq<char>)>
    decreases n,
{
    if n <= 0 {
        Seq::empty()
    } else if c.view().contains_key(d.keys()[n - 1]) && c.view()[d.keys()[n - 1]]@ != d.vals()[n - 1]@ {
        sys_changed(c, d, n - 1).push((d.keys()[n - 1], c.view()[d.keys()[n - 1]]@, d.vals()[n - 1]@))
    } else {
        sys_changed(c, d, n - 1)
    }
}

/// The sysctl change of one node present on both sides.
pub open spec fn node_sysctl_change(node: Seq<char>, c: StrMap<String>, d: StrMap<String>) -> SysctlChangeView {
    SysctlChangeView {
        node,
        added: sys_added(c, d, d.keys().len() as int),
        changed: sys_changed(c, d, d.keys().len() as int),
        removed: absent_keys(c.keys(), d.view().dom(), c.keys().len() as int),
    }
}

/// Non-empty sysctl changes of the first `n` desired nodes that also exist
/// currently.
pub open spec fn sysctl_changes(c: StrMap<Node>, d: StrMap<Node>, n: int) -> Seq<SysctlChangeView>
    decreases n,
{
    if n <= 0 {
        Seq::empty()
    } else {
        let name = d.keys()[n - 1];
        let prev = sysctl_changes(c, d, n - 1);
        if c.view().contains_key(name) {
            let ch = node_sysctl_change(name, c.view()[name].sysctls, d.vals()[n - 1].sysctls);
            if ch.added.len() == 0 && ch.changed.len() == 0 && ch.removed.len() == 0 {
                prev
            } else {
                prev.push(ch)
            }
        } else {
            prev
        }
    }
}

/// The source nodes of per-pair impairments.
pub open spec fn src_set(imps: Seq<NetworkImpairment>) -> Set<Seq<char>> {
    Set::new(|x: Seq<char>| exists|i: int| 0 <= i < imps.len() && imps[i].src@ == x)
}

/// The impairments among the first `n` whose source is `src`, in order.
pub open spec fn rules_for(imps: Seq<NetworkImpairment>, src: Seq<char>, n: int) -> Seq<NetworkImpairment>
    decreases n,
{
    if n <= 0 {
        Seq::empty()
    } else if imps[n - 1].src@ == src {
        rules_for(imps, src, n - 1).push(imps[n - 1])
    } else {
        rules_for(imps, src, n - 1)
    }
}

/// The impairments whose source is `src`, in order.
pub open spec fn rules_of(imps: Seq<NetworkImpairment>, src: Seq<char>) -> Seq<NetworkImpairment> {
    rules_for(imps, src, imps.len() as int)
}

pub open spec fn rules_view(r: Seq<NetworkImpairment>) -> Seq<crate::types::NetworkImpairmentView> {
    r.map_values(|x: NetworkImpairment| x@)
}

/// The per-pair impairments of network `name`, none when it is absent.
pub open spec fn net_imps(m: StrMap<Network>, name: Seq<char>) -> Seq<NetworkImpairment> {
    if m.view().contains_key(name) {
        m.view()[name].impairments@
    } else {
        Seq::empty()
    }
}

/// The sources of both sides of one network, in increasing order.
pub open spec fn src_keys(ci: Seq<NetworkImpairment>, di: Seq<NetworkImpairment>) -> Seq<Seq<char>> {
    merge(sorted_of(src_set(ci)), sorted_of(src_set(di)))
}

/// Impairer changes of network `net` over its first `n` sources.
pub open spec fn src_changes(net: Seq<char>, ci: Seq<NetworkImpairment>, di: Seq<NetworkImpairment>, n: int)
    -> Seq<(Seq<char>, Seq<char>, Option<Seq<NetworkImpairment>>)>
    decreases n,
{
    if n <= 0 {
        Seq::empty()
    } else {
        let s = src_keys(ci, di)[n - 1];
        let prev = src_changes(net, ci, di, n - 1);
        if src_set(di).contains(s) && (!src_set(ci).contains(s)
            || rules_view(rules_of(ci, s)) != rules_view(rules_of(di, s))) {
            prev.push((net, s, Some(rules_of(di, s))))
        } else if src_set(ci).contains(s) && !src_set(di).contains(s) {
            prev.push((net, s, None))
        } else {
            prev
        }
    }
}

/// Impairer changes over the first `n` networks of either side, in order of
/// (network, source).
pub open spec fn net_changes(c: StrMap<Network>, d: StrMap<Network>, n: int)
    -> Seq<(Seq<char>, Seq<char>, Option<Seq<NetworkImpairment>>)>
    decreases n,
{
    if n <= 0 {
        Seq::empty()
    } else {
        let name = merge(c.keys(), d.keys())[n - 1];
        let ci = net_imps(c, name);
        let di = net_imps(d, name);
        net_changes(c, d, n - 1) + src_changes(name, ci, di, src_keys(ci, di).len() as int)
    }
}

// ─── Nodes, links, impairments ──────────────────────────────

/// The keys of `a` that `b` lacks, in key order.
fn keys_absent<A, B>(a: &StrMap<A>, b: &StrMap<B>) -> (r: Vec<String>)
    requires
        a.wf(),
        b.wf(),
    ensures
        strs(r@) == absent_keys(a.keys(), b.view().dom(), a.keys().len() as int),
{
    let mut r: Vec<String> = Vec::new();
    let mut i: usize = 0;
    while i < a.len()
        invariant
            i <= a.keys().len(),
            b.wf(),
            strs(r@) == absent_keys(a.keys(), b.view().dom(), i as int),
        decreases a.keys().len() - i,
    {
        let k = a.key_at(i);
        if !b.contains_key(k.as_str()) {
            let ghost prev = r@;
            r.push(k.clone());
            assert(strs(r@) =~= strs(prev).push(a.keys()[i as int]));
        }
        i = i + 1;
    }
    r
}

/// The links of `ls` whose endpoint pair no link of `other` has, in order.
fn links_absent(ls: &Vec<Link>, other: &Vec<Link>) -> (r: Vec<Link>)
    ensures
        r@ == absent_links(ls@, other@, ls@.len() as int),
{
    let mut r: Vec<Link> = Vec::new();
    let mut i: usize = 0;
    while i < ls.len()
        invariant
            i <= ls@.len(),
            r@ == absent_links(ls@, other@, i as int),
        decreases ls@.len() - i,
    {
        let mut found = false;
        let mut j: usize = 0;
        while j < other.len()
            invariant
                j <= other@.len(),
                i < ls@.len(),
                found == exists|x: int| 0 <= x < j && other@[x].ends() == ls@[i as int].ends(),
            decreases other@.len() - j,
        {
            if ls[i].same_ends(&other[j]) {
                found = true;
            }
            j = j + 1;
        }
        if !found {
            r.push(ls[i].copy());
        }
        i = i + 1;
    }
    r
}

/// Whether two impairments differ in any setting.
pub fn impairment_differs(a: &Impairment, b: &Impairment) -> (r: bool)
    ensures
        r == (a@ != b@),
{
    !crate::text::opt_str_eq(&a.delay, &b.delay)
        || !crate::text::opt_str_eq(&a.jitter, &b.jitter)
        || !crate::text::opt_str_eq(&a.loss, &b.loss)
        || !crate::text::opt_str_eq(&a.rate, &b.rate)
        || !crate::text::opt_str_eq(&a.corrupt, &b.corrupt)
        || !crate::text::opt_str_eq(&a.reorder, &b.reorder)
}

fn impairment_changes(c: &StrMap<Impairment>, d: &StrMap<Impairment>) -> (r: (Vec<(String, Impairment)>, Vec<ImpairmentChange>))
    requires
        c.wf(),
        d.wf(),
    ensures
        r.0@.map_values(|p: (String, Impairment)| (p.0@, p.1)) == imps_added(*d, *c, d.keys().len() as int),
        r.1@.map_values(|x: ImpairmentChange| imp_change_view(x)) == imps_changed(*d, *c, d.keys().len() as int),
{
    let mut added: Vec<(String, Impairment)> = Vec::new();
    let mut changed: Vec<ImpairmentChange> = Vec::new();
    let mut i: usize = 0;
    while i < d.len()
        invariant
            i <= d.keys().len(),
            c.wf(),
            added@.map_values(|p: (String, Impairment)| (p.0@, p.1)) == imps_added(*d, *c, i as int),
            changed@.map_values(|x: ImpairmentChange| imp_change_view(x)) == imps_changed(*d, *c, i as int),
        decreases d.keys().len() - i,
    {
        let k = d.key_at(i);
        let new_imp = d.value_at(i);
        match c.get(k.as_str()) {
            None => {
                let ghost prev = added@;
                added.push((k.clone(), new_imp.copy()));
                assert(added@.map_values(|p: (String, Impairment)| (p.0@, p.1)) =~= prev.map_values(
                    |p: (String, Impairment)| (p.0@, p.1)).push((d.keys()[i as int], d.vals()[i as int])));
            },
            Some(old_imp) => {
                if impairment_differs(old_imp, new_imp) {
                    let ghost prev = changed@;
                    changed.push(ImpairmentChange { endpoint: k.clone(), old: old_imp.copy(), new: new_imp.copy() });
                    assert(changed@.map_values(|x: ImpairmentChange| imp_change_view(x)) =~= prev.map_values(
                        |x: ImpairmentChange| imp_change_view(x)).push(
                        (d.keys()[i as int], c.view()[d.keys()[i as int]], d.vals()[i as int])));
                }
            },
        }
        i = i + 1;
    }
    (added, changed)
}

// ─── Routes ─────────────────────────────────────────────────

/// Whether two routes have the same gateway, device and metric.
pub fn route_eq(a: &RouteConfig, b: &RouteConfig) -> (r: bool)
    ensures
        r == (a@ == b@),
{
    crate::text::opt_str_eq(&a.via, &b.via) && crate::text::opt_str_eq(&a.dev, &b.dev)
        && a.metric == b.metric
}

fn node_route_diff(node: &String, c: &StrMap<RouteConfig>, d: &StrMap<RouteConfig>, out: &mut Vec<RouteChange>)
    requires
        c.wf(),
        d.wf(),
    ensures
        final(out)@.map_values(|x: RouteChange| x@) == old(out)@.map_values(|x: RouteChange| x@)
            + node_route_changes(node@, *c, *d, merge(c.keys(), d.keys()).len() as int),
{
    let steps = union_walk(c, d);
    let ghost start = out@.map_values(|x: RouteChange| x@);
    let mut t: usize = 0;
    while t < steps.len()
        invariant
            t <= steps@.len(),
            c.wf(),
            d.wf(),
            steps@.len() == merge(c.keys(), d.keys()).len(),
            forall|u: int| #![trigger steps@[u]] 0 <= u < steps@.len() ==> {
                &&& steps@[u].key@ == merge(c.keys(), d.keys())[u]
                &&& match steps@[u].left {
                    Some(i) => i < c.keys().len() && c.keys()[i as int] == steps@[u].key@,
                    None => !c.view().contains_key(steps@[u].key@),
                }
                &&& match steps@[u].right {
                    Some(j) => j < d.keys().len() && d.keys()[j as int] == steps@[u].key@,
                    None => !d.view().contains_key(steps@[u].key@),
                }
            },
            out@.map_values(|x: RouteChange| x@) == start + node_route_changes(node@, *c, *d, t as int),
        decreases steps@.len() - t,
    {
        proof { c.lemma_view(); d.lemma_view(); }
        let step = &steps[t];
        let ghost prev = out@.map_values(|x: RouteChange| x@);
        let ghost old_out = out@;
        let ghost k = merge(c.keys(), d.keys())[t as int];
        assert(step.key@ == k);
        match (step.left, step.right) {
            (None, Some(j)) => {
                assert(d.keys()[j as int] == k);
                let rc = RouteChange {
                    node: node.clone(),
                    dest: step.key.clone(),
                    desired: Some(d.value_at(j).copy()),
                    was_present: false,
                };
                assert(rc@ == RouteChangeView { node: node@, dest: k, desired: Some(d.view()[k]), was_present: false });
                out.push(rc);
                assert(out@.map_values(|x: RouteChange| x@) =~= prev.push(rc@));
            },
            (Some(i), Some(j)) => {
                assert(d.keys()[j as int] == k);
                assert(c.keys()[i as int] == k);
                if !route_eq(c.value_at(i), d.value_at(j)) {
                    let rc = RouteChange {
                        node: node.clone(),
                        dest: step.key.clone(),
                        desired: Some(d.value_at(j).copy()),
                        was_present: true,
                    };
                    assert(rc@ == RouteChangeView { node: node@, dest: k, desired: Some(d.view()[k]), was_present: true });
                    out.push(rc);
                    assert(out@.map_values(|x: RouteChange| x@) =~= prev.push(rc@));
                } else {
                    assert(out@.map_values(|x: RouteChange| x@) =~= prev);
                }
            },
            (Some(i), None) => {
                assert(c.keys()[i as int] == k);
                let rc = RouteChange { node: node.clone(), dest: step.key.clone(), desired: None, was_present: true };
                out.push(rc);
                assert(out@.map_values(|x: RouteChange| x@) =~= prev.push(rc@));
            },
            (None, None) => {
                assert(merge(c.keys(), d.keys()).len() > t);
                assert(false) by {
                    crate::map::lemma_merge_members(c.keys(), d.keys(), t as int);
                    assert(c.keys().contains(k) || d.keys().contains(k));
                    assert(c.view().dom() == c.keys().to_set());
                }
            },
        }
        t = t + 1;
    }
}

fn route_diff(c: &StrMap<Node>, d: &StrMap<Node>) -> (r: Vec<RouteChange>)
    requires
        c.wf(),
        d.wf(),
        forall|k: Seq<char>| #[trigger] c.view().contains_key(k) ==> c.view()[k].wf(),
        forall|k: Seq<char>| #[trigger] d.view().contains_key(k) ==> d.view()[k].wf(),
    ensures
        r@.map_values(|x: RouteChange| x@) == route_changes(*c, *d, d.keys().len() as int),
{
    let mut out: Vec<RouteChange> = Vec::new();
    let mut i: usize = 0;
    assert(out@.map_values(|x: RouteChange| x@) =~= Seq::<RouteChangeView>::empty());
    while i < d.len()
        invariant
            i <= d.keys().len(),
            c.wf(),
            d.wf(),
            forall|k: Seq<char>| #[trigger] c.view().contains_key(k) ==> c.view()[k].wf(),
            forall|k: Seq<char>| #[trigger] d.view().contains_key(k) ==> d.view()[k].wf(),
            out@.map_values(|x: RouteChange| x@) == route_changes(*c, *d, i as int),
        decreases d.keys().len() - i,
    {
        proof { d.lemma_view(); }
        let name = d.key_at(i);
        let dn = d.value_at(i);
        assert(d.view().contains_key(d.keys()[i as int]));
        match c.get(name.as_str()) {
            Some(cn) => {
                node_route_diff(name, &cn.routes, &dn.routes, &mut out);
            },
            None => {},
        }
        i = i + 1;
    }
    out
}

// ─── Sysctls ────────────────────────────────────────────────

fn node_sysctl_diff(node: &String, c: &StrMap<String>, d: &StrMap<String>) -> (r: SysctlChange)
    requires
        c.wf(),
        d.wf(),
    ensures
        r@ == node_sysctl_change(node@, *c, *d),
{
    let mut added: Vec<(String, String)> = Vec::new();
    let mut changed: Vec<(String, String, String)> = Vec::new();
    let mut i: usize = 0;
    while i < d.len()
        invariant
            i <= d.keys().len(),
            c.wf(),
            added@.map_values(|p: (String, String)| (p.0@, p.1@)) == sys_added(*c, *d, i as int),
            changed@.map_values(|p: (String, String, String)| (p.0@, p.1@, p.2@)) == sys_changed(*c, *d, i as int),
        decreases d.keys().len() - i,
    {
        let k = d.key_at(i);
        let v = d.value_at(i);
        match c.get(k.as_str()) {
            None => {
                let ghost prev = added@;
                added.push((k.clone(), v.clone()));
                assert(added@.map_values(|p: (String, String)| (p.0@, p.1@)) =~= prev.map_values(
                    |p: (String, String)| (p.0@, p.1@)).push((d.keys()[i as int], d.vals()[i as int]@)));
            },
            Some(old) => {
                if !crate::text::str_eq(old.as_str(), v.as_str()) {
                    let ghost prev = changed@;
                    changed.push((k.clone(), old.clone(), v.clone()));
                    assert(changed@.map_values(|p: (String, String, String)| (p.0@, p.1@, p.2@)) =~= prev.map_values(
                        |p: (String, String, String)| (p.0@, p.1@, p.2@)).push(
                        (d.keys()[i as int], c.view()[d.keys()[i as int]]@, d.vals()[i as int]@)));
                }
            },
        }
        i = i + 1;
    }
    let removed = keys_absent(c, d);
    SysctlChange { node: node.clone(), added, changed, removed }
}

fn sysctl_diff(c: &StrMap<Node>, d: &StrMap<Node>) -> (r: Vec<SysctlChange>)
    requires
        c.wf(),
        d.wf(),
        forall|k: Seq<char>| #[trigger] c.view().contains_key(k) ==> c.view()[k].wf(),
        forall|k: Seq<char>| #[trigger] d.view().contains_key(k) ==> d.view()[k].wf(),
    ensures
        r@.map_values(|x: SysctlChange| x@) == sysctl_changes(*c, *d, d.keys().len() as int),
{
    let mut out: Vec<SysctlChange> = Vec::new();
    let mut i: usize = 0;
    assert(out@.map_values(|x: SysctlChange| x@) =~= Seq::<SysctlChangeView>::empty());
    while i < d.len()
        invariant
            i <= d.keys().len(),
            c.wf(),
            d.wf(),
            forall|k: Seq<char>| #[trigger] c.view().contains_key(k) ==> c.view()[k].wf(),
            forall|k: Seq<char>| #[trigger] d.view().contains_key(k) ==> d.view()[k].wf(),
            out@.map_values(|x: SysctlChange| x@) == sysctl_changes(*c, *d, i as int),
        decreases d.keys().len() - i,
    {
        proof { d.lemma_view(); }
        let name = d.key_at(i);
        let dn = d.value_at(i);
        assert(d.view().contains_key(d.keys()[i as int]));
        match c.get(name.as_str()) {
            Some(cn) => {
                let ch = node_sysctl_diff(name, &cn.sysctls, &dn.sysctls);
                if !ch.is_empty() {
                    let ghost prev = out@;
                    out.push(ch);
                    assert(out@.map_values(|x: SysctlChange| x@) =~= prev.map_values(|x: SysctlChange| x@).push(ch@));
                }
            },
            None => {},
        }
        i = i + 1;
    }
    out
}

// ─── Network impairments ────────────────────────────────────

/// Whether two per-pair impairments are identical.
pub fn net_imp_eq(a: &NetworkImpairment, b: &NetworkImpairment) -> (r: bool)
    ensures
        r == (a@ == b@),
{
    crate::text::str_eq(a.src.as_str(), b.src.as_str()) && crate::text::str_eq(a.dst.as_str(), b.dst.as_str())
        && crate::text::opt_str_eq(&a.delay, &b.delay)
        && crate::text::opt_str_eq(&a.jitter, &b.jitter)
        && crate::text::opt_str_eq(&a.loss, &b.loss)
        && crate::text::opt_str_eq(&a.rate, &b.rate)
        && crate::text::opt_str_eq(&a.corrupt, &b.corrupt)
        && crate::text::opt_str_eq(&a.reorder, &b.reorder)
        && crate::text::opt_str_eq(&a.rate_cap, &b.rate_cap)
}

fn rules_eq(a: &Vec<NetworkImpairment>, b: &Vec<NetworkImpairment>) -> (r: bool)
    ensures
        r == (rules_view(a@) == rules_view(b@)),
{
    if a.len() != b.len() {
        return false;
    }
    let mut i: usize = 0;
    while i < a.len()
        invariant
            i <= a@.len(),
            a@.len() == b@.len(),
            forall|j: int| 0 <= j < i ==> a@[j]@ == b@[j]@,
        decreases a@.len() - i,
    {
        if !net_imp_eq(&a[i], &b[i]) {
            assert(rules_view(a@)[i as int] != rules_view(b@)[i as int]);
            return false;
        }
        i = i + 1;
    }
    assert(rules_view(a@) =~= rules_view(b@));
    true
}

fn srcs_of(imps: &Vec<NetworkImpairment>) -> (m: StrMap<bool>)
    ensures
        m.wf(),
        m.view().dom() == src_set(imps@),
{
    let mut m: StrMap<bool> = StrMap::new();
    let mut i: usize = 0;
    while i < imps.len()
        invariant
            i <= imps@.len(),
            m.wf(),
            m.view().dom() == Set::new(|x: Seq<char>| exists|j: int| 0 <= j < i && imps@[j].src@ == x),
        decreases imps@.len() - i,
    {
        let ghost before = m.view().dom();
        m.insert(imps[i].src.clone(), true);
        i = i + 1;
        assert(m.view().dom() =~= Set::new(|x: Seq<char>| exists|j: int| 0 <= j < i && imps@[j].src@ == x)) by {
            assert forall|x: Seq<char>| (exists|j: int| 0 <= j < i && imps@[j].src@ == x) implies
                #[trigger] m.view().dom().contains(x) by {
                let j = choose|j: int| 0 <= j < i && imps@[j].src@ == x;
                if j < i - 1 {
                    assert(before.contains(x));
                }
            }
        }
    }
    assert(m.view().dom() =~= src_set(imps@));
    m
}

fn rules_of_exec(imps: &Vec<NetworkImpairment>, src: &str) -> (r: Vec<NetworkImpairment>)
    ensures
        r@ == rules_of(imps@, src@),
{
    let mut r: Vec<NetworkImpairment> = Vec::new();
    let mut i: usize = 0;
    while i < imps.len()
        invariant
            i <= imps@.len(),
            r@ == rules_for(imps@, src@, i as int),
        decreases imps@.len() - i,
    {
        if crate::text::str_eq(imps[i].src.as_str(), src) {
            r.push(imps[i].copy());
        }
        i = i + 1;
    }
    r
}

fn src_diff(net: &String, ci: &Vec<NetworkImpairment>, di: &Vec<NetworkImpairment>, out: &mut Vec<NetworkImpairerChange>)
    ensures
        final(out)@.map_values(|x: NetworkImpairerChange| net_change_view(x))
            == old(out)@.map_values(|x: NetworkImpairerChange| net_change_view(x))
            + src_changes(net@, ci@, di@, src_keys(ci@, di@).len() as int),
{
    let cm = srcs_of(ci);
    let dm = srcs_of(di);
    proof {
        cm.lemma_keys_sorted_of();
        dm.lemma_keys_sorted_of();
    }
    let steps = union_walk(&cm, &dm);
    let ghost start = out@.map_values(|x: NetworkImpairerChange| net_change_view(x));
    let ghost ks = src_keys(ci@, di@);
    let mut t: usize = 0;
    while t < steps.len()
        invariant
            t <= steps@.len(),
            cm.wf(),
            dm.wf(),
            cm.view().dom() == src_set(ci@),
            dm.view().dom() == src_set(di@),
            ks == merge(cm.keys(), dm.keys()),
            ks == src_keys(ci@, di@),
            steps@.len() == ks.len(),
            forall|u: int| #![trigger steps@[u]] 0 <= u < steps@.len() ==> {
                &&& steps@[u].key@ == ks[u]
                &&& match steps@[u].left {
                    Some(i) => i < cm.keys().len() && cm.keys()[i as int] == steps@[u].key@,
                    None => !cm.view().contains_key(steps@[u].key@),
                }
                &&& match steps@[u].right {
                    Some(j) => j < dm.keys().len() && dm.keys()[j as int] == steps@[u].key@,
                    None => !dm.view().contains_key(steps@[u].key@),
                }
            },
            out@.map_values(|x: NetworkImpairerChange| net_change_view(x)) == start + src_changes(net@, ci@, di@, t as int),
        decreases steps@.len() - t,
    {
        proof { cm.lemma_view(); dm.lemma_view(); }
        let step = &steps[t];
        let ghost prev = out@.map_values(|x: NetworkImpairerChange| net_change_view(x));
        let ghost s = ks[t as int];
        assert(step.key@ == s);
        let in_c = step.left.is_some();
        let in_d = step.right.is_some();
        proof {
            if in_c { assert(cm.view().contains_key(s)); }
            if in_d { assert(dm.view().contains_key(s)); }
        }
        if in_d {
            let dr = rules_of_exec(di, step.key.as_str());
            let differs = if in_c {
                let cr = rules_of_exec(ci, step.key.as_str());
                !rules_eq(&cr, &dr)
            } else {
                true
            };
            if differs {
                let ch = NetworkImpairerChange { network: net.clone(), src_node: step.key.clone(), desired: Some(dr) };
                out.push(ch);
                assert(out@.map_values(|x: NetworkImpairerChange| net_change_view(x)) =~= prev.push(net_change_view(ch)));
            } else {
                assert(out@.map_values(|x: NetworkImpairerChange| net_change_view(x)) =~= prev);
            }
        } else if in_c {
            let ch = NetworkImpairerChange { network: net.clone(), src_node: step.key.clone(), desired: None };
            out.push(ch);
            assert(out@.map_values(|x: NetworkImpairerChange| net_change_view(x)) =~= prev.push(net_change_view(ch)));
        } else {
            proof {
                crate::map::lemma_merge_members(cm.keys(), dm.keys(), t as int);
                assert(false);
            }
        }
        t = t + 1;
    }
}

fn net_diff(c: &StrMap<Network>, d: &StrMap<Network>) -> (r: Vec<NetworkImpairerChange>)
    requires
        c.wf(),
        d.wf(),
    ensures
        r@.map_values(|x: NetworkImpairerChange| net_change_view(x))
            == net_changes(*c, *d, merge(c.keys(), d.keys()).len() as int),
{
    let steps = union_walk(c, d);
    let mut out: Vec<NetworkImpairerChange> = Vec::new();
    let empty: Vec<NetworkImpairment> = Vec::new();
    assert(out@.map_values(|x: NetworkImpairerChange| net_change_view(x)) =~= net_changes(*c, *d, 0));
    let mut t: usize = 0;
    while t < steps.len()
        invariant
            t <= steps@.len(),
            c.wf(),
            d.wf(),
            empty@.len() == 0,
            steps@.len() == merge(c.keys(), d.keys()).len(),
            forall|u: int| #![trigger steps@[u]] 0 <= u < steps@.len() ==> {
                &&& steps@[u].key@ == merge(c.keys(), d.keys())[u]
                &&& match steps@[u].left {
                    Some(i) => i < c.keys().len() && c.keys()[i as int] == steps@[u].key@,
                    None => !c.view().contains_key(steps@[u].key@),
                }
                &&& match steps@[u].right {
                    Some(j) => j < d.keys().len() && d.keys()[j as int] == steps@[u].key@,
                    None => !d.view().contains_key(steps@[u].key@),
                }
            },
            out@.map_values(|x: NetworkImpairerChange| net_change_view(x)) == net_changes(*c, *d, t as int),
        decreases steps@.len() - t,
    {
        proof { c.lemma_view(); d.lemma_view(); }
        let step = &steps[t];
        let ghost name = merge(c.keys(), d.keys())[t as int];
        let ci: &Vec<NetworkImpairment> = match step.left {
            Some(i) => &c.value_at(i).impairments,
            None => &empty,
        };
        let di: &Vec<NetworkImpairment> = match step.right {
            Some(j) => &d.value_at(j).impairments,
            None => &empty,
        };
        assert(ci@ == net_imps(*c, name));
        assert(di@ == net_imps(*d, name));
        src_diff(&step.key, ci, di, &mut out);
        t = t + 1;
    }
    out
}

// ─── The diff ───────────────────────────────────────────────

/// What `diff_topologies(current, desired)` holds, field by field.
pub open spec fn diff_matches(r: TopologyDiff, current: Topology, desired: Topology) -> bool {
    &&& strs(r.nodes_added@) == absent_keys(desired.nodes.keys(), current.nodes.view().dom(),
        desired.nodes.keys().len() as int)
    &&& strs(r.nodes_removed@) == absent_keys(current.nodes.keys(), desired.nodes.view().dom(),
        current.nodes.keys().len() as int)
    &&& r.links_added@ == absent_links(desired.links@, current.links@, desired.links@.len() as int)
    &&& r.links_removed@ == absent_links(current.links@, desired.links@, current.links@.len() as int)
    &&& r.impairments_added@.map_values(|p: (String, Impairment)| (p.0@, p.1))
        == imps_added(desired.impairments, current.impairments, desired.impairments.keys().len() as int)
    &&& r.impairments_changed@.map_values(|x: ImpairmentChange| imp_change_view(x))
        == imps_changed(desired.impairments, current.impairments, desired.impairments.keys().len() as int)
    &&& strs(r.impairments_removed@) == absent_keys(current.impairments.keys(),
        desired.impairments.view().dom(), current.impairments.keys().len() as int)
    &&& r.network_impairs_changed@.map_values(|x: NetworkImpairerChange| net_change_view(x))
        == net_changes(current.networks, desired.networks,
            merge(current.networks.keys(), desired.networks.keys()).len() as int)
    &&& r.routes_changed@.map_values(|x: RouteChange| x@)
        == route_changes(current.nodes, desired.nodes, desired.nodes.keys().len() as int)
    &&& r.sysctls_changed@.map_values(|x: SysctlChange| x@)
        == sysctl_changes(current.nodes, desired.nodes, desired.nodes.keys().len() as int)
}

/// Compare two topologies and produce a diff: nodes, links (by endpoint
/// pair), impairments, per-pair network impairments, static routes and
/// sysctls, each list in key order.
pub fn diff_topologies(current: &Topology, desired: &Topology) -> (r: TopologyDiff)
    requires
        current.wf(),
        desired.wf(),
    ensures
        diff_matches(r, *current, *desired),
{
    let nodes_added = keys_absent(&desired.nodes, &current.nodes);
    let nodes_removed = keys_absent(&current.nodes, &desired.nodes);
    let links_added = links_absent(&desired.links, &current.links);
    let links_removed = links_absent(&current.links, &desired.links);
    let (impairments_added, impairments_changed) = impairment_changes(&current.impairments, &desired.impairments);
    let impairments_removed = keys_absent(&current.impairments, &desired.impairments);
    let network_impairs_changed = net_diff(&current.networks, &desired.networks);
    let routes_changed = route_diff(&current.nodes, &desired.nodes);
    let sysctls_changed = sysctl_diff(&current.nodes, &desired.nodes);
    TopologyDiff {
        nodes_added,
        nodes_removed,
        links_added,
        links_removed,
        impairments_changed,
        impairments_added,
        impairments_removed,
        network_impairs_changed,
        routes_changed,
        sysctls_changed,
    }
}

impl TopologyDiff {
    /// The total number of entries over all change lists.
    pub open spec fn spec_count(&self) -> nat {
        self.nodes_added@.len() + self.nodes_removed@.len() + self.links_added@.len()
            + self.links_removed@.len() + self.impairments_changed@.len()
            + self.impairments_added@.len() + self.impairments_removed@.len()
            + self.network_impairs_changed@.len() + self.routes_changed@.len()
            + self.sysctls_changed@.len()
    }

    /// True if there are no differences.
    pub fn is_empty(&self) -> (b: bool)
        ensures
            b == (self.spec_count() == 0),
    {
        self.nodes_added.len() == 0 && self.nodes_removed.len() == 0 && self.links_added.len() == 0
            && self.links_removed.len() == 0 && self.impairments_changed.len() == 0
            && self.impairments_added.len() == 0 && self.impairments_removed.len() == 0
            && self.network_impairs_changed.len() == 0 && self.routes_changed.len() == 0
            && self.sysctls_changed.len() == 0
    }

    /// Total number of changes.
    pub fn change_count(&self) -> (n: usize)
        requires
            self.spec_count() <= usize::MAX,
        ensures
            n == self.spec_count(),
    {
        self.nodes_added.len() + self.nodes_removed.len() + self.links_added.len()
            + self.links_removed.len() + self.impairments_changed.len()
            + self.impairments_added.len() + self.impairments_removed.len()
            + self.network_impairs_changed.len() + self.routes_changed.len()
            + self.sysctls_changed.len()
    }
}

} // verus!

verus! {

// ─── Laws ───────────────────────────────────────────────────

proof fn lemma_merge_self(a: Seq<Seq<char>>)
    ensures
        merge(a, a) == a,
    decreases a.len(),
{
    if a.len() > 0 {
        lemma_merge_self(a.drop_first());
        assert(a =~= seq![a[0]] + a.drop_first());
    }
}

proof fn lemma_absent_self(ks: Seq<Seq<char>>, n: int)
    requires
        0 <= n <= ks.len(),
    ensures
        absent_keys(ks, ks.to_set(), n).len() == 0,
    decreases n,
{
    if n > 0 {
        assert(ks.to_set().contains(ks[n - 1]));
        lemma_absent_self(ks, n - 1);
    }
}

proof fn lemma_links_self(ls: Seq<Link>, n: int)
    requires
        0 <= n <= ls.len(),
    ensures
        absent_links(ls, ls, n).len() == 0,
    decreases n,
{
    if n > 0 {
        assert(has_ends(ls, ls[n - 1].ends()));
        lemma_links_self(ls, n - 1);
    }
}

proof fn lemma_imps_self(m: StrMap<Impairment>, n: int)
    requires
        m.wf(),
        0 <= n <= m.keys().len(),
    ensures
        imps_added(m, m, n).len() == 0,
        imps_changed(m, m, n).len() == 0,
    decreases n,
{
    m.lemma_view();
    if n > 0 {
        assert(m.view().contains_key(m.keys()[n - 1]));
        lemma_imps_self(m, n - 1);
    }
}

proof fn lemma_sys_self(m: StrMap<String>, n: int)
    requires
        m.wf(),
        0 <= n <= m.keys().len(),
    ensures
        sys_added(m, m, n).len() == 0,
        sys_changed(m, m, n).len() == 0,
    decreases n,
{
    m.lemma_view();
    if n > 0 {
        assert(m.view().contains_key(m.keys()[n - 1]));
        lemma_sys_self(m, n - 1);
    }
}

proof fn lemma_node_routes_self(node: Seq<char>, r: StrMap<RouteConfig>, n: int)
    requires
        r.wf(),
        0 <= n <= r.keys().len(),
    ensures
        node_route_changes(node, r, r, n).len() == 0,
    decreases n,
{
    r.lemma_view();
    lemma_merge_self(r.keys());
    if n > 0 {
        assert(r.view().contains_key(r.keys()[n - 1]));
        lemma_node_routes_self(node, r, n - 1);
    }
}

proof fn lemma_routes_self(m: StrMap<Node>, n: int)
    requires
        m.wf(),
        forall|k: Seq<char>| #[trigger] m.view().contains_key(k) ==> m.view()[k].wf(),
        0 <= n <= m.keys().len(),
    ensures
        route_changes(m, m, n).len() == 0,
        sysctl_changes(m, m, n).len() == 0,
    decreases n,
{
    m.lemma_view();
    if n > 0 {
        let name = m.keys()[n - 1];
        assert(m.view().contains_key(name));
        let node = m.vals()[n - 1];
        assert(node.wf());
        lemma_merge_self(node.routes.keys());
        lemma_node_routes_self(name, node.routes, node.routes.keys().len() as int);
        lemma_sys_self(node.sysctls, node.sysctls.keys().len() as int);
        node.sysctls.lemma_view();
        lemma_absent_self(node.sysctls.keys(), node.sysctls.keys().len() as int);
        lemma_routes_self(m, n - 1);
    }
}

proof fn lemma_src_self(net: Seq<char>, imps: Seq<NetworkImpairment>, n: int)
    requires
        0 <= n <= src_keys(imps, imps).len(),
    ensures
        src_changes(net, imps, imps, n).len() == 0,
    decreases n,
{
    let q = sorted_of(src_set(imps));
    lemma_merge_self(q);
    if n > 0 {
        let s = src_keys(imps, imps)[n - 1];
        assert(s == q[n - 1]);
        lemma_src_set_sortable(imps);
        lemma_sorted_of_members(src_set(imps));
        assert(src_set(imps).contains(s));
        lemma_src_self(net, imps, n - 1);
    }
}

proof fn lemma_src_set_sortable(imps: Seq<NetworkImpairment>)
    ensures
        exists|q: Seq<Seq<char>>| crate::text::strictly_sorted(q) && q.to_set() == src_set(imps),
{
    let srcs = imps.map_values(|x: NetworkImpairment| x.src@);
    crate::map::lemma_sorted_exists(srcs);
    assert forall|y: Seq<char>| srcs.to_set().contains(y) == #[trigger] src_set(imps).contains(y) by {
        if srcs.to_set().contains(y) {
            let i = choose|i: int| 0 <= i < srcs.len() && srcs[i] == y;
            assert(imps[i].src@ == y);
        }
        if src_set(imps).contains(y) {
            let i = choose|i: int| 0 <= i < imps.len() && imps[i].src@ == y;
            assert(srcs[i] == y);
        }
    }
    assert(srcs.to_set() =~= src_set(imps));
}

proof fn lemma_sorted_of_members(s: Set<Seq<char>>)
    requires
        exists|q: Seq<Seq<char>>| crate::text::strictly_sorted(q) && q.to_set() == s,
    ensures
        forall|i: int| 0 <= i < sorted_of(s).len() ==> s.contains(#[trigger] sorted_of(s)[i]),
{
    let q = sorted_of(s);
    assert forall|i: int| 0 <= i < q.len() implies s.contains(#[trigger] q[i]) by {
        assert(q.to_set().contains(q[i]));
    }
}

proof fn lemma_nets_self(m: StrMap<Network>, n: int)
    requires
        m.wf(),
        0 <= n <= m.keys().len(),
    ensures
        net_changes(m, m, n).len() == 0,
    decreases n,
{
    lemma_merge_self(m.keys());
    if n > 0 {
        let name = m.keys()[n - 1];
        let imps = net_imps(m, name);
        lemma_src_self(name, imps, src_keys(imps, imps).len() as int);
        lemma_nets_self(m, n - 1);
    }
}

/// Comparing a topology with itself finds no change at all.
pub proof fn lemma_diff_self_is_empty(t: Topology, r: TopologyDiff)
    requires
        t.wf(),
        diff_matches(r, t, t),
    ensures
        r.spec_count() == 0,
{
    t.nodes.lemma_view();
    t.impairments.lemma_view();
    lemma_absent_self(t.nodes.keys(), t.nodes.keys().len() as int);
    lemma_absent_self(t.impairments.keys(), t.impairments.keys().len() as int);
    lemma_links_self(t.links@, t.links@.len() as int);
    lemma_imps_self(t.impairments, t.impairments.keys().len() as int);
    lemma_routes_self(t.nodes, t.nodes.keys().len() as int);
    lemma_merge_self(t.networks.keys());
    lemma_nets_self(t.networks, t.networks.keys().len() as int);
    assert(strs(r.nodes_added@).len() == r.nodes_added@.len());
    assert(strs(r.nodes_removed@).len() == r.nodes_removed@.len());
    assert(strs(r.impairments_removed@).len() == r.impairments_removed@.len());
    assert(r.impairments_added@.map_values(|p: (String, Impairment)| (p.0@, p.1)).len() == r.impairments_added@.len());
    assert(r.impairments_changed@.map_values(|x: ImpairmentChange| imp_change_view(x)).len() == r.impairments_changed@.len());
    assert(r.network_impairs_changed@.map_values(|x: NetworkImpairerChange| net_change_view(x)).len() == r.network_impairs_changed@.len());
    assert(r.routes_changed@.map_values(|x: RouteChange| x@).len() == r.routes_changed@.len());
    assert(r.sysctls_changed@.map_values(|x: SysctlChange| x@).len() == r.sysctls_changed@.len());
}

/// Swapping the two sides swaps added and removed nodes, links and
/// impairment endpoints.
pub proof fn lemma_diff_swap(a: Topology, b: Topology, ab: TopologyDiff, ba: TopologyDiff)
    requires
        a.wf(),
        b.wf(),
        diff_matches(ab, a, b),
        diff_matches(ba, b, a),
    ensures
        strs(ab.nodes_added@) == strs(ba.nodes_removed@),
        strs(ab.nodes_removed@) == strs(ba.nodes_added@),
        ab.links_added@ == ba.links_removed@,
        ab.links_removed@ == ba.links_added@,
{
}

} // verus!

verus! {

// ─── Rendering ──────────────────────────────────────────────

/// One line per entry of `items`: `prefix`, the entry, a newline.
pub open spec fn name_lines(prefix: Seq<char>, items: Seq<Seq<char>>, n: int) -> Seq<char>
    decreases n,
{
    if n <= 0 {
        Seq::empty()
    } else {
        name_lines(prefix, items, n - 1) + prefix + items[n - 1] + "\n"@
    }
}

pub open spec fn link_lines(prefix: Seq<char>, ls: Seq<Link>, n: int) -> Seq<char>
    decreases n,
{
    if n <= 0 {
        Seq::empty()
    } else {
        link_lines(prefix, ls, n - 1) + prefix + ls[n - 1].ends()[0] + " -- "@ + ls[n - 1].ends()[1] + "\n"@
    }
}

/// `"-"` for an unset delay, else the delay.
pub open spec fn delay_or_dash(o: Option<Seq<char>>) -> Seq<char> {
    match o {
        Some(s) => s,
        None => "-"@,
    }
}

pub open spec fn imp_change_lines(cs: Seq<ImpairmentChange>, n: int) -> Seq<char>
    decreases n,
{
    if n <= 0 {
        Seq::empty()
    } else {
        imp_change_lines(cs, n - 1) + "  ~ update impairment: "@ + cs[n - 1].endpoint@ + " (delay "@
            + debug_str(delay_or_dash(cs[n - 1].old@.delay)) + " \u{2192} "@
            + debug_str(delay_or_dash(cs[n - 1].new@.delay)) + ")\n"@
    }
}

pub open spec fn net_change_lines(cs: Seq<NetworkImpairerChange>, n: int) -> Seq<char>
    decreases n,
{
    if n <= 0 {
        Seq::empty()
    } else {
        let c = cs[n - 1];
        net_change_lines(cs, n - 1) + match c.desired {
            Some(rules) => "  ~ reconcile network impair: "@ + c.network@ + " on "@ + c.src_node@ + " ("@
                + crate::text::dec(rules@.len()) + " rule"@ + (if rules@.len() == 1 { ""@ } else { "s"@ })
                + ")\n"@,
            None => "  - remove network impair: "@ + c.network@ + " on "@ + c.src_node@
                + " (clear root qdisc)\n"@,
        }
    }
}

pub open spec fn route_lines(cs: Seq<RouteChange>, n: int) -> Seq<char>
    decreases n,
{
    if n <= 0 {
        Seq::empty()
    } else {
        let c = cs[n - 1];
        route_lines(cs, n - 1) + (match (c.desired, c.was_present) {
            (Some(_), false) => "  + add route: "@,
            (Some(_), true) => "  ~ update route: "@,
            (None, _) => "  - remove route: "@,
        }) + c.node@ + " "@ + c.dest@ + "\n"@
    }
}

pub open spec fn sys_added_lines(node: Seq<char>, a: Seq<(String, String)>, n: int) -> Seq<char>
    decreases n,
{
    if n <= 0 {
        Seq::empty()
    } else {
        sys_added_lines(node, a, n - 1) + "  + add sysctl: "@ + node + " "@ + a[n - 1].0@ + "\n"@
    }
}

pub open spec fn sys_changed_lines(node: Seq<char>, a: Seq<(String, String, String)>, n: int) -> Seq<char>
    decreases n,
{
    if n <= 0 {
        Seq::empty()
    } else {
        sys_changed_lines(node, a, n - 1) + "  ~ update sysctl: "@ + node + " "@ + a[n - 1].0@ + " ("@
            + a[n - 1].1@ + " \u{2192} "@ + a[n - 1].2@ + ")\n"@
    }
}

pub open spec fn sys_removed_lines(node: Seq<char>, a: Seq<String>, n: int) -> Seq<char>
    decreases n,
{
    if n <= 0 {
        Seq::empty()
    } else {
        sys_removed_lines(node, a, n - 1) + "  ! drop sysctl: "@ + node + " "@ + a[n - 1]@
            + " (kernel value left at last setting)\n"@
    }
}

pub open spec fn sysctl_lines(cs: Seq<SysctlChange>, n: int) -> Seq<char>
    decreases n,
{
    if n <= 0 {
        Seq::empty()
    } else {
        let c = cs[n - 1];
        sysctl_lines(cs, n - 1) + sys_added_lines(c.node@, c.added@, c.added@.len() as int)
            + sys_changed_lines(c.node@, c.changed@, c.changed@.len() as int)
            + sys_removed_lines(c.node@, c.removed@, c.removed@.len() as int)
    }
}

/// The human-readable rendering of a diff, one line per change.
pub open spec fn render(d: TopologyDiff) -> Seq<char> {
    name_lines("  + add node: "@, strs(d.nodes_added@), d.nodes_added@.len() as int)
        + name_lines("  - remove node: "@, strs(d.nodes_removed@), d.nodes_removed@.len() as int)
        + link_lines("  + add link: "@, d.links_added@, d.links_added@.len() as int)
        + link_lines("  - remove link: "@, d.links_removed@, d.links_removed@.len() as int)
        + name_lines("  + add impairment: "@, d.impairments_added@.map_values(|p: (String, Impairment)| p.0@),
            d.impairments_added@.len() as int)
        + name_lines("  - remove impairment: "@, strs(d.impairments_removed@), d.impairments_removed@.len() as int)
        + imp_change_lines(d.impairments_changed@, d.impairments_changed@.len() as int)
        + net_change_lines(d.network_impairs_changed@, d.network_impairs_changed@.len() as int)
        + route_lines(d.routes_changed@, d.routes_changed@.len() as int)
        + sysctl_lines(d.sysctls_changed@, d.sysctls_changed@.len() as int)
        + (if d.spec_count() == 0 { "  (no changes)\n"@ } else { Seq::empty() })
}

fn push_name_lines(out: &mut String, prefix: &str, items: &Vec<String>)
    ensures
        final(out)@ == old(out)@ + name_lines(prefix@, strs(items@), items@.len() as int),
{
    let ghost start = out@;
    let mut i: usize = 0;
    while i < items.len()
        invariant
            i <= items@.len(),
            out@ == start + name_lines(prefix@, strs(items@), i as int),
        decreases items@.len() - i,
    {
        crate::text::push_str(out, prefix);
        crate::text::push_str(out, items[i].as_str());
        crate::text::push_str(out, "\n");
        i = i + 1;
        assert(out@ =~= start + name_lines(prefix@, strs(items@), i as int));
    }
}

fn push_link_lines(out: &mut String, prefix: &str, ls: &Vec<Link>)
    ensures
        final(out)@ == old(out)@ + link_lines(prefix@, ls@, ls@.len() as int),
{
    broadcast use vstd::array::group_array_axioms;
    let ghost start = out@;
    let mut i: usize = 0;
    while i < ls.len()
        invariant
            i <= ls@.len(),
            out@ == start + link_lines(prefix@, ls@, i as int),
        decreases ls@.len() - i,
    {
        crate::text::push_str(out, prefix);
        crate::text::push_str(out, ls[i].endpoints[0].as_str());
        crate::text::push_str(out, " -- ");
        crate::text::push_str(out, ls[i].endpoints[1].as_str());
        crate::text::push_str(out, "\n");
        i = i + 1;
        assert(out@ =~= start + link_lines(prefix@, ls@, i as int));
    }
}

impl TopologyDiff {
    /// The diff as text, one line per change (`"  (no changes)"` when
    /// empty) — what `Display` writes.
    #[verifier::rlimit(40)]
    pub fn to_text(&self) -> (s: String)
        ensures
            s@ == render(*self),
    {
        let mut out = String::new();
        push_name_lines(&mut out, "  + add node: ", &self.nodes_added);
        push_name_lines(&mut out, "  - remove node: ", &self.nodes_removed);
        push_link_lines(&mut out, "  + add link: ", &self.links_added);
        push_link_lines(&mut out, "  - remove link: ", &self.links_removed);
        let ghost s0 = out@;
        let mut i: usize = 0;
        while i < self.impairments_added.len()
            invariant
                i <= self.impairments_added@.len(),
                out@ == s0 + name_lines("  + add impairment: "@,
                    self.impairments_added@.map_values(|p: (String, Impairment)| p.0@), i as int),
            decreases self.impairments_added@.len() - i,
        {
            crate::text::push_str(&mut out, "  + add impairment: ");
            crate::text::push_str(&mut out, self.impairments_added[i].0.as_str());
            crate::text::push_str(&mut out, "\n");
            i = i + 1;
            assert(out@ =~= s0 + name_lines("  + add impairment: "@,
                self.impairments_added@.map_values(|p: (String, Impairment)| p.0@), i as int));
        }
        push_name_lines(&mut out, "  - remove impairment: ", &self.impairments_removed);
        let ghost s1 = out@;
        let mut i: usize = 0;
        while i < self.impairments_changed.len()
            invariant
                i <= self.impairments_changed@.len(),
                out@ == s1 + imp_change_lines(self.impairments_changed@, i as int),
            decreases self.impairments_changed@.len() - i,
        {
            let c = &self.impairments_changed[i];
            crate::text::push_str(&mut out, "  ~ update impairment: ");
            crate::text::push_str(&mut out, c.endpoint.as_str());
            crate::text::push_str(&mut out, " (delay ");
            let old_d = match &c.old.delay { Some(d) => debug_string(d.as_str()), None => debug_string("-") };
            crate::text::push_str(&mut out, old_d.as_str());
            crate::text::push_str(&mut out, " \u{2192} ");
            let new_d = match &c.new.delay { Some(d) => debug_string(d.as_str()), None => debug_string("-") };
            crate::text::push_str(&mut out, new_d.as_str());
            crate::text::push_str(&mut out, ")\n");
            i = i + 1;
            assert(out@ =~= s1 + imp_change_lines(self.impairments_changed@, i as int));
        }
        let ghost s2 = out@;
        let mut i: usize = 0;
        while i < self.network_impairs_changed.len()
            invariant
                i <= self.network_impairs_changed@.len(),
                out@ == s2 + net_change_lines(self.network_impairs_changed@, i as int),
            decreases self.network_impairs_changed@.len() - i,
        {
            let c = &self.network_impairs_changed[i];
            match &c.desired {
                Some(rules) => {
                    crate::text::push_str(&mut out, "  ~ reconcile network impair: ");
                    crate::text::push_str(&mut out, c.network.as_str());
                    crate::text::push_str(&mut out, " on ");
                    crate::text::push_str(&mut out, c.src_node.as_str());
                    crate::text::push_str(&mut out, " (");
                    crate::text::push_dec(&mut out, rules.len() as u64);
                    crate::text::push_str(&mut out, " rule");
                    if rules.len() == 1 {
                        crate::text::push_str(&mut out, "");
                    } else {
                        crate::text::push_str(&mut out, "s");
                    }
                    crate::text::push_str(&mut out, ")\n");
                },
                None => {
                    crate::text::push_str(&mut out, "  - remove network impair: ");
                    crate::text::push_str(&mut out, c.network.as_str());
                    crate::text::push_str(&mut out, " on ");
                    crate::text::push_str(&mut out, c.src_node.as_str());
                    crate::text::push_str(&mut out, " (clear root qdisc)\n");
                },
            }
            i = i + 1;
            assert(out@ =~= s2 + net_change_lines(self.network_impairs_changed@, i as int));
        }
        let ghost s3 = out@;
        let mut i: usize = 0;
        while i < self.routes_changed.len()
            invariant
                i <= self.routes_changed@.len(),
                out@ == s3 + route_lines(self.routes_changed@, i as int),
            decreases self.routes_changed@.len() - i,
        {
            let c = &self.routes_changed[i];
            match (&c.desired, c.was_present) {
                (Some(_), false) => crate::text::push_str(&mut out, "  + add route: "),
                (Some(_), true) => crate::text::push_str(&mut out, "  ~ update route: "),
                (None, _) => crate::text::push_str(&mut out, "  - remove route: "),
            }
            crate::text::push_str(&mut out, c.node.as_str());
            crate::text::push_str(&mut out, " ");
            crate::text::push_str(&mut out, c.dest.as_str());
            crate::text::push_str(&mut out, "\n");
            i = i + 1;
            assert(out@ =~= s3 + route_lines(self.routes_changed@, i as int));
        }
        let ghost s4 = out@;
        let mut i: usize = 0;
        while i < self.sysctls_changed.len()
            invariant
                i <= self.sysctls_changed@.len(),
                out@ == s4 + sysctl_lines(self.sysctls_changed@, i as int),
            decreases self.sysctls_changed@.len() - i,
        {
            let c = &self.sysctls_changed[i];
            let ghost t0 = out@;
            let mut j: usize = 0;
            while j < c.added.len()
                invariant
                    j <= c.added@.len(),
                    out@ == t0 + sys_added_lines(c.node@, c.added@, j as int),
                decreases c.added@.len() - j,
            {
                crate::text::push_str(&mut out, "  + add sysctl: ");
                crate::text::push_str(&mut out, c.node.as_str());
                crate::text::push_str(&mut out, " ");
                crate::text::push_str(&mut out, c.added[j].0.as_str());
                crate::text::push_str(&mut out, "\n");
                j = j + 1;
                assert(out@ =~= t0 + sys_added_lines(c.node@, c.added@, j as int));
            }
            let ghost t1 = out@;
            let mut j: usize = 0;
            while j < c.changed.len()
                invariant
                    j <= c.changed@.len(),
                    out@ == t1 + sys_changed_lines(c.node@, c.changed@, j as int),
                decreases c.changed@.len() - j,
            {
                crate::text::push_str(&mut out, "  ~ update sysctl: ");
                crate::text::push_str(&mut out, c.node.as_str());
                crate::text::push_str(&mut out, " ");
                crate::text::push_str(&mut out, c.changed[j].0.as_str());
                crate::text::push_str(&mut out, " (");
                crate::text::push_str(&mut out, c.changed[j].1.as_str());
                crate::text::push_str(&mut out, " \u{2192} ");
                crate::text::push_str(&mut out, c.changed[j].2.as_str());
                crate::text::push_str(&mut out, ")\n");
                j = j + 1;
                assert(out@ =~= t1 + sys_changed_lines(c.node@, c.changed@, j as int));
            }
            let ghost t2 = out@;
            let mut j: usize = 0;
            while j < c.removed.len()
                invariant
                    j <= c.removed@.len(),
                    out@ == t2 + sys_removed_lines(c.node@, c.removed@, j as int),
                decreases c.removed@.len() - j,
            {
                crate::text::push_str(&mut out, "  ! drop sysctl: ");
                crate::text::push_str(&mut out, c.node.as_str());
                crate::text::push_str(&mut out, " ");
                crate::text::push_str(&mut out, c.removed[j].as_str());
                crate::text::push_str(&mut out, " (kernel value left at last setting)\n");
                j = j + 1;
                assert(out@ =~= t2 + sys_removed_lines(c.node@, c.removed@, j as int));
            }
            i = i + 1;
            assert(out@ =~= s4 + sysctl_lines(self.sysctls_changed@, i as int));
        }
        if self.is_empty() {
            crate::text::push_str(&mut out, "  (no changes)\n");
        }
        assert(out@ =~= render(*self));
        out
    }
}

// ─── Reconciling sysctls ───────────────────────────────────────────

/// The views of `(key, value)` string pairs.
pub open spec fn kv_views(v: Seq<(String, String)>) -> Seq<(Seq<char>, Seq<char>)> {
    v.map_values(|p: (String, String)| (p.0@, p.1@))
}

/// The writes a sysctl change calls for: each added entry, then each
/// changed key with its new value. Removed keys are left at their kernel
/// value (the previous setting cannot be recovered).
pub open spec fn sysctl_writes(c: SysctlChangeView) -> Seq<(Seq<char>, Seq<char>)> {
    c.added + c.changed.map_values(|t: (Seq<char>, Seq<char>, Seq<char>)| (t.0, t.2))
}

impl SysctlChange {
    /// The `(key, value)` writes that bring the node to the desired sysctls.
    pub fn writes(&self) -> (r: Vec<(String, String)>)
        ensures
            kv_views(r@) == sysctl_writes(self@),
    {
        let mut r: Vec<(String, String)> = Vec::new();
        let mut i: usize = 0;
        while i < self.added.len()
            invariant
                i <= self.added@.len(),
                kv_views(r@) == self@.added.take(i as int),
            decreases self.added@.len() - i,
        {
            let k = self.added[i].0.clone();
            let v = self.added[i].1.clone();
            let ghost before = r@;
            let ghost kv = (k@, v@);
            assert(kv == self@.added[i as int]);
            r.push((k, v));
            assert(kv_views(r@) =~= kv_views(before).push(kv));
            i = i + 1;
            assert(kv_views(r@) =~= self@.added.take(i as int));
        }
        let ghost base = kv_views(r@);
        assert(base =~= self@.added);
        let ghost ch = self@.changed.map_values(|t: (Seq<char>, Seq<char>, Seq<char>)| (t.0, t.2));
        let mut j: usize = 0;
        while j < self.changed.len()
            invariant
                j <= self.changed@.len(),
                base == self@.added,
                ch == self@.changed.map_values(|t: (Seq<char>, Seq<char>, Seq<char>)| (t.0, t.2)),
                kv_views(r@) == base + ch.take(j as int),
            decreases self.changed@.len() - j,
        {
            let k = self.changed[j].0.clone();
            let v = self.changed[j].2.clone();
            let ghost before = r@;
            let ghost kv = (k@, v@);
            assert(kv == ch[j as int]);
            r.push((k, v));
            assert(kv_views(r@) =~= kv_views(before).push(kv));
            j = j + 1;
            assert(kv_views(r@) =~= base + ch.take(j as int));
        }
        assert(ch.take(j as int) =~= ch);
        r
    }
}

/// The sysctl writes of the first `n` changes, node by node, leaving out
/// nodes with nothing to write.
pub open spec fn sysctl_plan(cs: Seq<SysctlChange>, n: int) -> Seq<(Seq<char>, Seq<(Seq<char>, Seq<char>)>)>
    decreases n,
{
    if n <= 0 {
        Seq::empty()
    } else if sysctl_writes(cs[n - 1]@).len() > 0 {
        sysctl_plan(cs, n - 1).push((cs[n - 1]@.node, sysctl_writes(cs[n - 1]@)))
    } else {
        sysctl_plan(cs, n - 1)
    }
}

/// Reconcile per-node sysctls: for each node whose sysctls changed, the
/// `(key, value)` writes that one `set_sysctls` call applies (adds and
/// changes; nodes with only removals are left out).
pub fn sysctl_updates(diff: &TopologyDiff) -> (r: Vec<(String, Vec<(String, String)>)>)
    ensures
        r@.map_values(|p: (String, Vec<(String, String)>)| (p.0@, kv_views(p.1@)))
            == sysctl_plan(diff.sysctls_changed@, diff.sysctls_changed@.len() as int),
{
    let mut r: Vec<(String, Vec<(String, String)>)> = Vec::new();
    let mut i: usize = 0;
    while i < diff.sysctls_changed.len()
        invariant
            i <= diff.sysctls_changed@.len(),
            r@.map_values(|p: (String, Vec<(String, String)>)| (p.0@, kv_views(p.1@)))
                == sysctl_plan(diff.sysctls_changed@, i as int),
        decreases diff.sysctls_changed@.len() - i,
    {
        let c = &diff.sysctls_changed[i];
        let w = c.writes();
        if w.len() > 0 {
            let ghost before = r@;
            let ghost item = (c.node@, kv_views(w@));
            r.push((c.node.clone(), w));
            assert(r@.map_values(|p: (String, Vec<(String, String)>)| (p.0@, kv_views(p.1@)))
                =~= before.map_values(|p: (String, Vec<(String, String)>)| (p.0@, kv_views(p.1@))).push(item));
        }
        i = i + 1;
    }
    r
}

} // verus!
