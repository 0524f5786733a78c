//! Name resolution for lab nodes: the `/etc/hosts` entries that let nodes
//! reach each other by name, the managed per-lab section of the host's
//! hosts file, and the per-namespace `hosts` / `resolv.conf` contents.
//!
//! Everything here computes file contents from file contents; reading and
//! writing the files is left to the caller.
use vstd::prelude::*;
use crate::error::Error;
use crate::map::{StrMap, sorted_of};
use crate::text::{
    lines, trim, trim_end, starts_with, ends_with, before_first, is_ws, to_chars, push_str,
    push_char, string_from_chars, chars_eq, split_lines, starts_with_chars, ends_with_chars,
    skip_chars, trim_chars, trim_end_chars, find_char, has_char, has_sub, has_sub_chars,
    debug_str, debug_string, lemma_first_pos, owned,
};
use crate::types::{Topology, Link, Network, PortConfig, EndpointRef, endpoint_parts};

verus! {

// ─── Markers and entries ────────────────────────────────────────────

/// The line that opens the managed section of lab `lab`.
pub open spec fn start_marker(lab: Seq<char>) -> Seq<char> {
    "###### NLINK-LAB-"@ + lab + "-START ######"@
}

/// The line that closes the managed section of lab `lab`.
pub open spec fn end_marker(lab: Seq<char>) -> Seq<char> {
    "###### NLINK-LAB-"@ + lab + "-END ######"@
}

/// The opening marker line of a lab's section.
pub fn section_start(lab_name: &str) -> (s: String)
    ensures
        s@ == start_marker(lab_name@),
{
    let mut s = String::new();
    push_str(&mut s, "###### NLINK-LAB-");
    push_str(&mut s, lab_name);
    push_str(&mut s, "-START ######");
    s
}

/// The closing marker line of a lab's section.
pub fn section_end(lab_name: &str) -> (s: String)
    ensures
        s@ == end_marker(lab_name@),
{
    let mut s = String::new();
    push_str(&mut s, "###### NLINK-LAB-");
    push_str(&mut s, lab_name);
    push_str(&mut s, "-END ######");
    s
}

/// A single hosts entry: IP -> list of hostnames.
#[derive(Debug, Clone, PartialEq, Eq)]
pub struct HostsEntry {
    pub ip: String,
    pub names: Vec<String>,
}

impl View for HostsEntry {
    type V = (Seq<char>, Seq<Seq<char>>);

    open spec fn view(&self) -> (Seq<char>, Seq<Seq<char>>) {
        (self.ip@, self.names@.map_values(|n: String| n@))
    }
}

/// The views of a list of entries.
pub open spec fn entry_views(es: Seq<HostsEntry>) -> Seq<(Seq<char>, Seq<Seq<char>>)> {
    es.map_values(|e: HostsEntry| e@)
}

/// Each of the first `n` names, preceded by a tab.
pub open spec fn tabbed(names: Seq<Seq<char>>, n: int) -> Seq<char>
    decreases n,
{
    if n <= 0 {
        Seq::empty()
    } else {
        tabbed(names, n - 1) + seq!['\t'] + names[n - 1]
    }
}

/// A hosts-file line, without its newline: the address, then each name
/// after a tab.
pub open spec fn entry_body(e: (Seq<char>, Seq<Seq<char>>)) -> Seq<char> {
    e.0 + tabbed(e.1, e.1.len() as int)
}

/// The hosts-file lines of the first `n` entries, each ended by a newline.
pub open spec fn entries_text(es: Seq<(Seq<char>, Seq<Seq<char>>)>, n: int) -> Seq<char>
    decreases n,
{
    if n <= 0 {
        Seq::empty()
    } else {
        entries_text(es, n - 1) + entry_body(es[n - 1]) + seq!['\n']
    }
}

/// Appends the hosts-file lines of `entries` to `out`.
fn push_entries(out: &mut String, entries: &[HostsEntry])
    ensures
        final(out)@ == old(out)@ + entries_text(entry_views(entries@), entries@.len() as int),
{
    let ghost es = entry_views(entries@);
    let ghost start = out@;
    let mut i: usize = 0;
    while i < entries.len()
        invariant
            i <= entries@.len(),
            es == entry_views(entries@),
            out@ == start + entries_text(es, i as int),
        decreases entries@.len() - i,
    {
        let e = &entries[i];
        let ghost before = out@;
        push_str(out, e.ip.as_str());
        let mut j: usize = 0;
        while j < e.names.len()
            invariant
                j <= e.names@.len(),
                e == &entries@[i as int],
                out@ == before + e.ip@ + tabbed(e@.1, j as int),
            decreases e.names@.len() - j,
        {
            push_char(out, '\t');
            push_str(out, e.names[j].as_str());
            j = j + 1;
            assert(out@ =~= before + e.ip@ + tabbed(e@.1, j as int));
        }
        push_char(out, '\n');
        i = i + 1;
        assert(es[i - 1] == e@);
        assert(out@ =~= start + entries_text(es, i as int));
    }
}

// ─── Small parsers ──────────────────────────────────────────────────

/// The address part of `addr` with any `/prefix` removed, where that is
/// not empty.
pub open spec fn address_part(addr: Seq<char>) -> Option<Seq<char>> {
    if before_first(addr, '/').len() > 0 { Some(before_first(addr, '/')) } else { None }
}

/// Strip CIDR prefix length from an address (e.g., "10.0.0.1/24" -> "10.0.0.1").
pub fn strip_prefix_len(addr: &str) -> (r: Option<String>)
    ensures
        match address_part(addr@) {
            Some(ip) => r matches Some(s) && s@ == ip,
            None => r is None,
        },
{
    let cs = to_chars(addr);
    let cut = match find_char(cs.as_slice(), '/') {
        Some(i) => i,
        None => cs.len(),
    };
    if cut == 0 {
        return None;
    }
    let mut ip: Vec<char> = Vec::new();
    let mut i: usize = 0;
    while i < cut
        invariant
            i <= cut <= cs@.len(),
            ip@ == cs@.take(i as int),
        decreases cut - i,
    {
        ip.push(cs[i]);
        i = i + 1;
        assert(ip@ =~= cs@.take(i as int));
    }
    assert(cs@.take(cs@.len() as int) =~= cs@);
    Some(string_from_chars(ip.as_slice()))
}

/// The nameserver a resolv.conf line names, unless it is empty or a
/// loopback / stub address.
pub open spec fn nameserver_in(line: Seq<char>) -> Option<Seq<char>> {
    let t = trim(line);
    if starts_with(t, "nameserver"@) {
        let ns = trim(t.skip("nameserver"@.len() as int));
        if ns != "127.0.0.53"@ && ns != "127.0.0.1"@ && ns != "::1"@ && ns.len() > 0 {
            Some(ns)
        } else {
            None
        }
    } else {
        None
    }
}

/// The first nameserver among lines `i..` of `ls`.
pub open spec fn first_nameserver(ls: Seq<Seq<char>>, i: int) -> Option<Seq<char>>
    decreases ls.len() - i,
{
    if i < 0 || i >= ls.len() {
        None
    } else {
        match nameserver_in(ls[i]) {
            Some(ns) => Some(ns),
            None => first_nameserver(ls, i + 1),
        }
    }
}

/// Parse the first non-loopback nameserver from resolv.conf content.
pub fn parse_nameserver(content: &str) -> (r: Option<String>)
    ensures
        match first_nameserver(lines(content@), 0) {
            Some(ns) => r matches Some(s) && s@ == ns,
            None => r is None,
        },
{
    let cs = to_chars(content);
    let ls = split_lines(cs.as_slice());
    let ghost lv = ls@.map_values(|l: Vec<char>| l@);
    let key = to_chars("nameserver");
    let stub = to_chars("127.0.0.53");
    let lo4 = to_chars("127.0.0.1");
    let lo6 = to_chars("::1");
    let mut i: usize = ls.len();
    let mut found: Option<Vec<char>> = None;
    // scan backwards so that the first match is the one kept
    while i > 0
        invariant
            i <= ls@.len(),
            lv == ls@.map_values(|l: Vec<char>| l@),
            lv == lines(cs@),
            key@ == "nameserver"@,
            stub@ == "127.0.0.53"@,
            lo4@ == "127.0.0.1"@,
            lo6@ == "::1"@,
            match first_nameserver(lv, i as int) {
                Some(ns) => found matches Some(f) && f@ == ns,
                None => found is None,
            },
        decreases i,
    {
        i = i - 1;
        let t = trim_chars(ls[i].as_slice());
        assert(t@ == trim(lv[i as int]));
        if starts_with_chars(t.as_slice(), key.as_slice()) {
            let rest = skip_chars(t.as_slice(), key.len());
            let ns = trim_chars(rest.as_slice());
            if !chars_eq(ns.as_slice(), stub.as_slice()) && !chars_eq(ns.as_slice(), lo4.as_slice())
                && !chars_eq(ns.as_slice(), lo6.as_slice()) && ns.len() > 0 {
                found = Some(ns);
            }
        }
    }
    match found {
        Some(f) => Some(string_from_chars(f.as_slice())),
        None => None,
    }
}

/// A namespace name that could escape `/etc/netns/`: empty, hidden,
/// holding a path separator, a NUL, or `..`.
pub open spec fn unsafe_netns_name(n: Seq<char>) -> bool {
    ||| n.len() == 0
    ||| n[0] == '.'
    ||| n.contains('/')
    ||| n.contains('\0')
    ||| has_sub(n, seq!['.', '.'])
}

/// Reject a namespace name that could escape `/etc/netns/`.
pub fn check_netns_name(ns_name: &str) -> (r: Result<(), Error>)
    ensures
        unsafe_netns_name(ns_name@) ==> (r matches Err(Error::DeployFailed(m))
            && m@ == "refusing to touch /etc/netns for unsafe namespace name "@
            + debug_str(ns_name@)),
        !unsafe_netns_name(ns_name@) ==> r is Ok,
{
    let cs = to_chars(ns_name);
    let dots: Vec<char> = vec!['.', '.'];
    assert(dots@ =~= seq!['.', '.']);
    let bad = cs.len() == 0 || cs[0] == '.' || has_char(cs.as_slice(), '/')
        || has_char(cs.as_slice(), '\0') || has_sub_chars(cs.as_slice(), dots.as_slice());
    if bad {
        let mut m = String::new();
        push_str(&mut m, "refusing to touch /etc/netns for unsafe namespace name ");
        let d = debug_string(ns_name);
        push_str(&mut m, d.as_str());
        return Err(Error::DeployFailed(m));
    }
    Ok(())
}

// ─── The managed sections of a hosts file ───────────────────────────

/// A line that opens a managed section: that of lab `lab` where one is
/// named, else that of any lab.
pub open spec fn opens_section(lab: Option<Seq<char>>, l: Seq<char>) -> bool {
    match lab {
        Some(n) => l == start_marker(n),
        None => starts_with(l, "###### NLINK-LAB-"@) && ends_with(l, "-START ######"@),
    }
}

/// A line that closes a managed section (of lab `lab`, or of any lab).
pub open spec fn closes_section(lab: Option<Seq<char>>, l: Seq<char>) -> bool {
    match lab {
        Some(n) => l == end_marker(n),
        None => starts_with(l, "###### NLINK-LAB-"@) && ends_with(l, "-END ######"@),
    }
}

/// Scan of the first `n` lines: the kept text (each kept line followed by a
/// newline) and whether the scan is inside a section. Marker lines are
/// dropped, and so is every line between an opening marker and the next
/// closing one.
pub open spec fn section_scan(ls: Seq<Seq<char>>, lab: Option<Seq<char>>, n: int) -> (Seq<char>, bool)
    decreases n,
{
    if n <= 0 {
        (Seq::empty(), false)
    } else {
        let (out, inside) = section_scan(ls, lab, n - 1);
        let l = ls[n - 1];
        if opens_section(lab, l) {
            (out, true)
        } else if closes_section(lab, l) {
            (out, false)
        } else if inside {
            (out, true)
        } else {
            (out + l + seq!['\n'], false)
        }
    }
}

/// `content` with the managed sections (of `lab`, or of every lab) removed.
pub open spec fn without_sections(content: Seq<char>, lab: Option<Seq<char>>) -> Seq<char> {
    section_scan(lines(content), lab, lines(content).len() as int).0
}

/// The view of an optional string slice.
pub open spec fn opt_view(o: Option<&str>) -> Option<Seq<char>> {
    match o {
        Some(s) => Some(s@),
        None => None,
    }
}

fn drop_sections(content: &str, lab: Option<&str>) -> (r: String)
    ensures
        r@ == without_sections(content@, opt_view(lab)),
{
    let cs = to_chars(content);
    let ls = split_lines(cs.as_slice());
    let ghost lv = ls@.map_values(|l: Vec<char>| l@);
    let ghost labv = opt_view(lab);
    let (start, end) = match lab {
        Some(n) => (to_chars(section_start(n).as_str()), to_chars(section_end(n).as_str())),
        None => (Vec::new(), Vec::new()),
    };
    let prefix = to_chars("###### NLINK-LAB-");
    let start_tail = to_chars("-START ######");
    let end_tail = to_chars("-END ######");
    let mut out = String::new();
    let mut inside = false;
    let mut i: usize = 0;
    while i < ls.len()
        invariant
            i <= ls@.len(),
            lv == ls@.map_values(|l: Vec<char>| l@),
            lv == lines(cs@),
            cs@ == content@,
            labv == opt_view(lab),
            labv matches Some(n) ==> start@ == start_marker(n) && end@ == end_marker(n),
            prefix@ == "###### NLINK-LAB-"@,
            start_tail@ == "-START ######"@,
            end_tail@ == "-END ######"@,
            (out@, inside) == section_scan(lv, labv, i as int),
        decreases ls@.len() - i,
    {
        let l = ls[i].as_slice();
        assert(l@ == lv[i as int]);
        let opens = match lab {
            Some(_) => chars_eq(l, start.as_slice()),
            None => starts_with_chars(l, prefix.as_slice()) && ends_with_chars(l, start_tail.as_slice()),
        };
        let closes = match lab {
            Some(_) => chars_eq(l, end.as_slice()),
            None => starts_with_chars(l, prefix.as_slice()) && ends_with_chars(l, end_tail.as_slice()),
        };
        if opens {
            inside = true;
        } else if closes {
            inside = false;
        } else if !inside {
            let ghost before = out@;
            let text = string_from_chars(l);
            push_str(&mut out, text.as_str());
            push_char(&mut out, '\n');
            assert(out@ =~= before + l@ + seq!['\n']);
        }
        i = i + 1;
    }
    out
}

/// Remove the managed section for a specific lab from file content.
pub fn remove_section(content: &str, lab_name: &str) -> (r: String)
    ensures
        r@ == without_sections(content@, Some(lab_name@)),
{
    drop_sections(content, Some(lab_name))
}

/// The hosts file with the section of `lab_name` removed, or `None` where
/// that leaves it unchanged (nothing to write).
pub fn remove_hosts(existing: &str, lab_name: &str) -> (r: Option<String>)
    ensures
        without_sections(existing@, Some(lab_name@)) == existing@ ==> r is None,
        without_sections(existing@, Some(lab_name@)) != existing@ ==> (r matches Some(s)
            && s@ == without_sections(existing@, Some(lab_name@))),
{
    let cleaned = remove_section(existing, lab_name);
    if crate::text::str_eq(cleaned.as_str(), existing) {
        None
    } else {
        Some(cleaned)
    }
}

/// The hosts file with every lab's section removed, or `None` where that
/// leaves it unchanged.
pub fn remove_all_hosts(existing: &str) -> (r: Option<String>)
    ensures
        without_sections(existing@, None) == existing@ ==> r is None,
        without_sections(existing@, None) != existing@ ==> (r matches Some(s)
            && s@ == without_sections(existing@, None)),
{
    let cleaned = drop_sections(existing, None);
    if crate::text::str_eq(cleaned.as_str(), existing) {
        None
    } else {
        Some(cleaned)
    }
}

/// The managed section of lab `lab` holding entries `es`.
pub open spec fn section_text(lab: Seq<char>, es: Seq<(Seq<char>, Seq<Seq<char>>)>) -> Seq<char> {
    start_marker(lab) + seq!['\n'] + entries_text(es, es.len() as int) + end_marker(lab) + seq!['\n']
}

/// The hosts file after writing the section of `lab`: the rest of the file
/// with trailing whitespace removed, a newline where that rest is not
/// empty, then the section.
pub open spec fn injected(existing: Seq<char>, lab: Seq<char>, es: Seq<(Seq<char>, Seq<Seq<char>>)>) -> Seq<char> {
    let base = trim_end(without_sections(existing, Some(lab)));
    (if base.len() > 0 { base.push('\n') } else { base }) + section_text(lab, es)
}

/// The hosts file with the section of `lab_name` (re)written to hold
/// `entries`; `None` where there are no entries (nothing to write).
pub fn inject_hosts(existing: &str, lab_name: &str, entries: &[HostsEntry]) -> (r: Option<String>)
    ensures
        entries@.len() == 0 ==> r is None,
        entries@.len() > 0 ==> (r matches Some(s) && s@ == injected(existing@, lab_name@, entry_views(entries@))),
{
    if entries.len() == 0 {
        return None;
    }
    let cleaned = remove_section(existing, lab_name);
    let ccs = to_chars(cleaned.as_str());
    let base = trim_end_chars(ccs.as_slice());
    let mut result = string_from_chars(base.as_slice());
    if base.len() > 0 {
        push_char(&mut result, '\n');
    }
    let ghost pre = result@;
    push_str(&mut result, section_start(lab_name).as_str());
    push_char(&mut result, '\n');
    push_entries(&mut result, entries);
    push_str(&mut result, section_end(lab_name).as_str());
    push_char(&mut result, '\n');
    assert(result@ =~= pre + section_text(lab_name@, entry_views(entries@)));
    Some(result)
}

/// The per-namespace `hosts` file: localhost lines, then the entries.
pub open spec fn netns_hosts_text(es: Seq<(Seq<char>, Seq<Seq<char>>)>) -> Seq<char> {
    "127.0.0.1\tlocalhost\n::1\t\tlocalhost\n"@ + entries_text(es, es.len() as int)
}

/// The contents of a namespace's `hosts` file.
pub fn netns_hosts(entries: &[HostsEntry]) -> (s: String)
    ensures
        s@ == netns_hosts_text(entry_views(entries@)),
{
    let mut s = String::new();
    push_str(&mut s, "127.0.0.1\tlocalhost\n::1\t\tlocalhost\n");
    push_entries(&mut s, entries);
    s
}

/// The contents of a namespace's `resolv.conf`, naming `upstream`.
pub fn resolv_conf(upstream: &str) -> (s: String)
    ensures
        s@ == "nameserver "@ + upstream@ + seq!['\n'],
{
    let mut s = String::new();
    push_str(&mut s, "nameserver ");
    push_str(&mut s, upstream);
    push_char(&mut s, '\n');
    s
}

// ─── Hosts entries of a topology ────────────────────────────────────

/// The address record `(node, ip, iface)` of one endpoint address, where
/// the endpoint parses and the address has a non-empty address part.
pub open spec fn address_rec(ep: Seq<char>, addr: Seq<char>) -> Seq<(Seq<char>, Seq<char>, Seq<char>)> {
    match endpoint_parts(ep) {
        Some((n, i)) => match address_part(addr) {
            Some(ip) => seq![(n, ip, i)],
            None => Seq::empty(),
        },
        None => Seq::empty(),
    }
}

/// The address records of a link: its first endpoint's, then its second's.
pub open spec fn link_recs(l: Link) -> Seq<(Seq<char>, Seq<char>, Seq<char>)> {
    match l.addresses {
        Some(a) => address_rec(l.endpoints@[0]@, a@[0]@) + address_rec(l.endpoints@[1]@, a@[1]@),
        None => Seq::empty(),
    }
}

/// The address records of the first `n` links.
pub open spec fn links_recs(ls: Seq<Link>, n: int) -> Seq<(Seq<char>, Seq<char>, Seq<char>)>
    decreases n,
{
    if n <= 0 { Seq::empty() } else { links_recs(ls, n - 1) + link_recs(ls[n - 1]) }
}

/// The address records of the first `n` addresses of a bridge port.
pub open spec fn port_recs(ep: Seq<char>, addrs: Seq<String>, n: int) -> Seq<(Seq<char>, Seq<char>, Seq<char>)>
    decreases n,
{
    if n <= 0 { Seq::empty() } else { port_recs(ep, addrs, n - 1) + address_rec(ep, addrs[n - 1]@) }
}

/// The address records of the first `n` ports of a network, in key order.
pub open spec fn ports_recs(ks: Seq<Seq<char>>, ps: Seq<PortConfig>, n: int) -> Seq<(Seq<char>, Seq<char>, Seq<char>)>
    decreases n,
{
    if n <= 0 {
        Seq::empty()
    } else {
        ports_recs(ks, ps, n - 1) + port_recs(ks[n - 1], ps[n - 1].addresses@, ps[n - 1].addresses@.len() as int)
    }
}

/// The address records of the first `n` networks.
pub open spec fn networks_recs(ns: Seq<Network>, n: int) -> Seq<(Seq<char>, Seq<char>, Seq<char>)>
    decreases n,
{
    if n <= 0 {
        Seq::empty()
    } else {
        networks_recs(ns, n - 1) + ports_recs(ns[n - 1].ports.keys(), ns[n - 1].ports.vals(),
            ns[n - 1].ports.keys().len() as int)
    }
}

/// Every assigned address of a topology, as `(node, ip, iface)`: those of
/// point-to-point links in link order, then those of bridge ports.
pub open spec fn topology_addrs(t: Topology) -> Seq<(Seq<char>, Seq<char>, Seq<char>)> {
    links_recs(t.links@, t.links@.len() as int) + networks_recs(t.networks.vals(), t.networks.vals().len() as int)
}

/// The `(ip, iface)` pairs of node `n`, in record order.
pub open spec fn node_recs(recs: Seq<(Seq<char>, Seq<char>, Seq<char>)>, n: Seq<char>) -> Seq<(Seq<char>, Seq<char>)>
    decreases recs.len(),
{
    if recs.len() == 0 {
        Seq::empty()
    } else {
        let p = node_recs(recs.drop_last(), n);
        if recs.last().0 == n { p.push((recs.last().1, recs.last().2)) } else { p }
    }
}

/// The nodes that have an address.
pub open spec fn rec_nodes(recs: Seq<(Seq<char>, Seq<char>, Seq<char>)>) -> Set<Seq<char>> {
    Set::new(|n: Seq<char>| node_recs(recs, n).len() > 0)
}

/// The entries of node `n`: one per address, the first also carrying the
/// bare node name, each carrying the `node-iface` alias.
pub open spec fn node_entries(n: Seq<char>, ps: Seq<(Seq<char>, Seq<char>)>) -> Seq<(Seq<char>, Seq<Seq<char>>)> {
    Seq::new(ps.len(), |k: int| (ps[k].0, if k == 0 {
        seq![n, n + seq!['-'] + ps[k].1]
    } else {
        seq![n + seq!['-'] + ps[k].1]
    }))
}

/// The entries of the first `n` of `names`, node after node.
pub open spec fn grouped(names: Seq<Seq<char>>, recs: Seq<(Seq<char>, Seq<char>, Seq<char>)>, n: int) -> Seq<(Seq<char>, Seq<Seq<char>>)>
    decreases n,
{
    if n <= 0 {
        Seq::empty()
    } else {
        grouped(names, recs, n - 1) + node_entries(names[n - 1], node_recs(recs, names[n - 1]))
    }
}

/// The hosts entries of a list of address records: node by node in name
/// order, each node's addresses in record order.
pub open spec fn hosts_entries(recs: Seq<(Seq<char>, Seq<char>, Seq<char>)>) -> Seq<(Seq<char>, Seq<Seq<char>>)> {
    grouped(sorted_of(rec_nodes(recs)), recs, sorted_of(rec_nodes(recs)).len() as int)
}

/// The views of `(ip, iface)` string pairs.
pub open spec fn pair_views(v: Seq<(String, String)>) -> Seq<(Seq<char>, Seq<char>)> {
    v.map_values(|p: (String, String)| (p.0@, p.1@))
}

/// `m` holds, under each node, that node's pairs among `recs`.
pub open spec fn groups_match(m: StrMap<Vec<(String, String)>>, recs: Seq<(Seq<char>, Seq<char>, Seq<char>)>) -> bool {
    &&& m.wf()
    &&& forall|n: Seq<char>| #[trigger] m.view().contains_key(n) <==> node_recs(recs, n).len() > 0
    &&& forall|n: Seq<char>| #[trigger] m.view().contains_key(n) ==> pair_views(m.view()[n]@) == node_recs(recs, n)
}

fn add_address(groups: &mut StrMap<Vec<(String, String)>>, ep: &str, addr: &str,
    Ghost(recs): Ghost<Seq<(Seq<char>, Seq<char>, Seq<char>)>>)
    requires
        groups_match(*old(groups), recs),
    ensures
        groups_match(*final(groups), recs + address_rec(ep@, addr@)),
{
    match EndpointRef::parse(ep) {
        Some(e) => match strip_prefix_len(addr) {
            Some(ip) => {
                let ghost r = (e.node@, ip@, e.iface@);
                let ghost old_view = groups.view();
                let ghost nrecs = recs.push(r);
                assert(recs + address_rec(ep@, addr@) =~= nrecs);
                assert(nrecs.drop_last() =~= recs);
                let ghost pair = (ip, e.iface);
                groups.push_at(e.node, (ip, e.iface));
                assert forall|n: Seq<char>| #[trigger] groups.view().contains_key(n)
                    <==> node_recs(nrecs, n).len() > 0 by {
                    if n != r.0 {
                        assert(node_recs(nrecs, n) == node_recs(recs, n));
                    }
                }
                assert forall|n: Seq<char>| #[trigger] groups.view().contains_key(n)
                    implies pair_views(groups.view()[n]@) == node_recs(nrecs, n) by {
                    if n == r.0 {
                        if old_view.contains_key(n) {
                            assert(pair_views(groups.view()[n]@) =~= pair_views(old_view[n]@).push((r.1, r.2)));
                        } else {
                            assert(node_recs(recs, n).len() == 0);
                            assert(pair_views(groups.view()[n]@) =~= seq![(r.1, r.2)]);
                            assert(node_recs(recs, n) =~= Seq::<(Seq<char>, Seq<char>)>::empty());
                        }
                    } else {
                        assert(node_recs(nrecs, n) == node_recs(recs, n));
                    }
                }
            },
            None => {
                assert(recs + address_rec(ep@, addr@) =~= recs);
            },
        },
        None => {
            assert(recs + address_rec(ep@, addr@) =~= recs);
        },
    }
}

/// `name-iface`.
fn alias(name: &str, iface: &str) -> (s: String)
    ensures
        s@ == name@ + seq!['-'] + iface@,
{
    let mut s = owned(name);
    push_char(&mut s, '-');
    push_str(&mut s, iface);
    s
}

/// Generate hosts entries from a topology.
///
/// For each node, collects all assigned IP addresses from links and network ports.
/// The first IP for a node gets the bare node name; all IPs get a `node-iface` alias.
pub fn generate_hosts_entries(topology: &Topology) -> (r: Vec<HostsEntry>)
    requires
        topology.wf(),
    ensures
        entry_views(r@) == hosts_entries(topology_addrs(*topology)),
{
    let mut groups: StrMap<Vec<(String, String)>> = StrMap::new();
    let ghost mut recs: Seq<(Seq<char>, Seq<char>, Seq<char>)> = Seq::empty();
    proof {
        assert forall|n: Seq<char>| #[trigger] groups.view().contains_key(n)
            <==> node_recs(recs, n).len() > 0 by {}
    }
    let mut i: usize = 0;
    while i < topology.links.len()
        invariant
            i <= topology.links@.len(),
            groups_match(groups, recs),
            recs == links_recs(topology.links@, i as int),
        decreases topology.links@.len() - i,
    {
        let link = &topology.links[i];
        let ghost before = recs;
        match &link.addresses {
            Some(addrs) => {
                add_address(&mut groups, link.endpoints[0].as_str(), addrs[0].as_str(), Ghost(recs));
                proof { recs = recs + address_rec(link.endpoints@[0]@, addrs@[0]@); }
                add_address(&mut groups, link.endpoints[1].as_str(), addrs[1].as_str(), Ghost(recs));
                proof { recs = recs + address_rec(link.endpoints@[1]@, addrs@[1]@); }
            },
            None => {},
        }
        i = i + 1;
        assert(recs =~= links_recs(topology.links@, i as int));
    }
    let ghost link_part = recs;
    let mut j: usize = 0;
    while j < topology.networks.len()
        invariant
            j <= topology.networks.keys().len(),
            topology.wf(),
            groups_match(groups, recs),
            recs == link_part + networks_recs(topology.networks.vals(), j as int),
        decreases topology.networks.keys().len() - j,
    {
        proof { topology.networks.lemma_view(); }
        let net = topology.networks.value_at(j);
        let ghost net_start = recs;
        assert(topology.networks.view().contains_key(topology.networks.keys()[j as int]));
        assert(net.ports.wf());
        let mut p: usize = 0;
        while p < net.ports.len()
            invariant
                p <= net.ports.keys().len(),
                net.ports.wf(),
                groups_match(groups, recs),
                recs == net_start + ports_recs(net.ports.keys(), net.ports.vals(), p as int),
            decreases net.ports.keys().len() - p,
        {
            proof { net.ports.lemma_view(); }
            let ep = net.ports.key_at(p);
            let port = net.ports.value_at(p);
            let ghost port_start = recs;
            let mut a: usize = 0;
            while a < port.addresses.len()
                invariant
                    a <= port.addresses@.len(),
                    groups_match(groups, recs),
                    recs == port_start + port_recs(ep@, port.addresses@, a as int),
                decreases port.addresses@.len() - a,
            {
                add_address(&mut groups, ep.as_str(), port.addresses[a].as_str(), Ghost(recs));
                proof { recs = recs + address_rec(ep@, port.addresses@[a as int]@); }
                a = a + 1;
                assert(recs =~= port_start + port_recs(ep@, port.addresses@, a as int));
            }
            p = p + 1;
            assert(recs =~= net_start + ports_recs(net.ports.keys(), net.ports.vals(), p as int));
        }
        j = j + 1;
        assert(recs =~= link_part + networks_recs(topology.networks.vals(), j as int));
    }
    proof {
        topology.networks.lemma_view();
        assert(recs == topology_addrs(*topology));
        groups.lemma_keys_sorted_of();
        groups.lemma_view();
        assert(groups.view().dom() =~= rec_nodes(recs));
    }
    let ghost names = groups.keys();
    let mut out: Vec<HostsEntry> = Vec::new();
    let mut g: usize = 0;
    while g < groups.len()
        invariant
            g <= names.len(),
            names == groups.keys(),
            groups_match(groups, recs),
            entry_views(out@) == grouped(names, recs, g as int),
        decreases names.len() - g,
    {
        proof { groups.lemma_view(); }
        let name = groups.key_at(g);
        let list = groups.value_at(g);
        assert(pair_views(list@) == node_recs(recs, name@));
        let ghost pre = entry_views(out@);
        let ghost ne = node_entries(name@, pair_views(list@));
        let mut k: usize = 0;
        while k < list.len()
            invariant
                k <= list@.len(),
                ne == node_entries(name@, pair_views(list@)),
                entry_views(out@) == pre + ne.take(k as int),
            decreases list@.len() - k,
        {
            let mut names_v: Vec<String> = Vec::new();
            if k == 0 {
                names_v.push(owned(name.as_str()));
            }
            names_v.push(alias(name.as_str(), list[k].1.as_str()));
            let e = HostsEntry { ip: owned(list[k].0.as_str()), names: names_v };
            assert(e@ == ne[k as int]) by {
                assert(e@.1 =~= ne[k as int].1);
            }
            let ghost before_out = out@;
            let ghost ev = e@;
            out.push(e);
            assert(entry_views(out@) =~= entry_views(before_out).push(ev));
            k = k + 1;
            assert(entry_views(out@) =~= pre + ne.take(k as int));
        }
        g = g + 1;
        assert(ne.take(k as int) =~= ne);
        assert(entry_views(out@) =~= grouped(names, recs, g as int));
    }
    out
}

// ─── Rewriting a section replaces it ───────────────────────────────

/// Lines, each followed by a newline.
pub open spec fn join_lines(ls: Seq<Seq<char>>) -> Seq<char>
    decreases ls.len(),
{
    if ls.len() == 0 {
        Seq::empty()
    } else {
        join_lines(ls.drop_last()) + ls.last() + seq!['\n']
    }
}

proof fn lemma_join_append(a: Seq<Seq<char>>, b: Seq<Seq<char>>)
    ensures
        join_lines(a + b) == join_lines(a) + join_lines(b),
    decreases b.len(),
{
    if b.len() == 0 {
        assert(a + b =~= a);
    } else {
        assert((a + b).drop_last() =~= a + b.drop_last());
        lemma_join_append(a, b.drop_last());
    }
}

/// The line scan of a prefix depends only on that prefix.
proof fn lemma_line_scan_prefix(a: Seq<char>, b: Seq<char>, n: int)
    requires
        0 <= n <= a.len(),
        n <= b.len(),
        a.take(n) == b.take(n),
    ensures
        crate::text::line_scan(a, n) == crate::text::line_scan(b, n),
    decreases n,
{
    if n > 0 {
        assert(a.take(n - 1) =~= a.take(n).take(n - 1));
        assert(b.take(n - 1) =~= b.take(n).take(n - 1));
        assert(a[n - 1] == a.take(n)[n - 1]);
        assert(b[n - 1] == b.take(n)[n - 1]);
        lemma_line_scan_prefix(a, b, n - 1);
    }
}

/// Scanning past a text whose last line is complete continues afresh.
proof fn lemma_line_scan_concat(a: Seq<char>, b: Seq<char>, k: int)
    requires
        crate::text::line_scan(a, a.len() as int).1.len() == 0,
        0 <= k <= b.len(),
    ensures
        crate::text::line_scan(a + b, a.len() + k) == (
            crate::text::line_scan(a, a.len() as int).0 + crate::text::line_scan(b, k).0,
            crate::text::line_scan(b, k).1,
        ),
    decreases k,
{
    if k == 0 {
        assert((a + b).take(a.len() as int) =~= a.take(a.len() as int));
        lemma_line_scan_prefix(a + b, a, a.len() as int);
        assert(crate::text::line_scan(a, a.len() as int).1 =~= Seq::<char>::empty());
        assert(crate::text::line_scan(a, a.len() as int).0 + crate::text::line_scan(b, 0).0
            =~= crate::text::line_scan(a, a.len() as int).0);
    } else {
        lemma_line_scan_concat(a, b, k - 1);
        assert((a + b)[a.len() + k - 1] == b[k - 1]);
        let (ls, cur) = crate::text::line_scan(b, k - 1);
        let pre = crate::text::line_scan(a, a.len() as int).0;
        if b[k - 1] == '\n' {
            assert(pre + ls.push(crate::text::strip_cr(cur)) =~= (pre + ls).push(crate::text::strip_cr(cur)));
        }
    }
}

/// The line scan of a text without newlines: no complete line yet.
proof fn lemma_line_scan_open(y: Seq<char>, k: int)
    requires
        !y.contains('\n'),
        0 <= k <= y.len(),
    ensures
        crate::text::line_scan(y, k) == (Seq::<Seq<char>>::empty(), y.take(k)),
    decreases k,
{
    if k > 0 {
        lemma_line_scan_open(y, k - 1);
        assert(y.take(k) =~= y.take(k - 1).push(y[k - 1]));
    }
}

/// Splitting joined lines gives them back, each without a final carriage return.
proof fn lemma_lines_of_join(ls: Seq<Seq<char>>)
    requires
        forall|i: int| 0 <= i < ls.len() ==> !(#[trigger] ls[i]).contains('\n'),
    ensures
        crate::text::line_scan(join_lines(ls), join_lines(ls).len() as int)
            == (Seq::new(ls.len(), |i: int| crate::text::strip_cr(ls[i])), Seq::<char>::empty()),
        lines(join_lines(ls)) == Seq::new(ls.len(), |i: int| crate::text::strip_cr(ls[i])),
    decreases ls.len(),
{
    let j = join_lines(ls);
    if ls.len() == 0 {
        assert(Seq::new(ls.len(), |i: int| crate::text::strip_cr(ls[i])) =~= Seq::<Seq<char>>::empty());
    } else {
        let l0 = ls.drop_last();
        let y = ls.last();
        assert(forall|i: int| 0 <= i < l0.len() ==> l0[i] == ls[i]);
        lemma_lines_of_join(l0);
        let a = join_lines(l0);
        let b = y + seq!['\n'];
        assert(j =~= a + b);
        assert(!y.contains('\n')) by {
            assert(y == ls[ls.len() - 1]);
        }
        lemma_line_scan_open(y, y.len() as int);
        assert(b.take(y.len() as int) =~= y);
        assert(y.take(y.len() as int) =~= y);
        lemma_line_scan_prefix(b, y, y.len() as int);
        lemma_line_scan_concat(a, b, b.len() as int);
        assert(Seq::new(ls.len(), |i: int| crate::text::strip_cr(ls[i]))
            =~= Seq::new(l0.len(), |i: int| crate::text::strip_cr(l0[i])).push(crate::text::strip_cr(y)));
        assert(seq![crate::text::strip_cr(y)] =~= Seq::<Seq<char>>::empty().push(crate::text::strip_cr(y)));
    }
}

/// No line of a text holds a newline.
proof fn lemma_lines_no_newline(s: Seq<char>, n: int)
    requires
        0 <= n <= s.len(),
    ensures
        forall|i: int| 0 <= i < crate::text::line_scan(s, n).0.len()
            ==> !(#[trigger] crate::text::line_scan(s, n).0[i]).contains('\n'),
        !crate::text::line_scan(s, n).1.contains('\n'),
    decreases n,
{
    if n > 0 {
        lemma_line_scan_prefix(s, s, n - 1);
        lemma_lines_no_newline(s, n - 1);
        let (ls, cur) = crate::text::line_scan(s, n - 1);
        if s[n - 1] == '\n' {
            let c = crate::text::strip_cr(cur);
            assert(!c.contains('\n')) by {
                if c.contains('\n') {
                    let k = choose|k: int| 0 <= k < c.len() && c[k] == '\n';
                    assert(cur[k] == '\n');
                }
            }
            assert(forall|i: int| 0 <= i < ls.len() ==> ls.push(c)[i] == ls[i]);
        } else {
            let c2 = cur.push(s[n - 1]);
            assert(!c2.contains('\n')) by {
                if c2.contains('\n') {
                    let k = choose|k: int| 0 <= k < c2.len() && c2[k] == '\n';
                    if k < cur.len() {
                        assert(cur[k] == '\n');
                    }
                }
            }
        }
    }
}

proof fn lemma_lines_have_no_newline(s: Seq<char>)
    ensures
        forall|i: int| 0 <= i < lines(s).len() ==> !(#[trigger] lines(s)[i]).contains('\n'),
{
    lemma_lines_no_newline(s, s.len() as int);
    let (ls, cur) = crate::text::line_scan(s, s.len() as int);
    if cur.len() > 0 {
        assert(forall|i: int| 0 <= i < ls.len() ==> ls.push(cur)[i] == ls[i]);
    }
}

/// The lines a section scan keeps, and whether it ends inside a section.
pub open spec fn kept_scan(ls: Seq<Seq<char>>, lab: Option<Seq<char>>, n: int) -> (Seq<Seq<char>>, bool)
    decreases n,
{
    if n <= 0 {
        (Seq::empty(), false)
    } else {
        let (kept, inside) = kept_scan(ls, lab, n - 1);
        let l = ls[n - 1];
        if opens_section(lab, l) {
            (kept, true)
        } else if closes_section(lab, l) {
            (kept, false)
        } else if inside {
            (kept, true)
        } else {
            (kept.push(l), false)
        }
    }
}

proof fn lemma_kept_scan(ls: Seq<Seq<char>>, lab: Option<Seq<char>>, n: int)
    requires
        0 <= n <= ls.len(),
    ensures
        section_scan(ls, lab, n) == (join_lines(kept_scan(ls, lab, n).0), kept_scan(ls, lab, n).1),
        forall|k: int| 0 <= k < kept_scan(ls, lab, n).0.len() ==> exists|i: int| 0 <= i < n
            && ls[i] == #[trigger] kept_scan(ls, lab, n).0[k] && !opens_section(lab, ls[i])
            && !closes_section(lab, ls[i]),
    decreases n,
{
    if n > 0 {
        lemma_kept_scan(ls, lab, n - 1);
        let (kept, inside) = kept_scan(ls, lab, n - 1);
        let l = ls[n - 1];
        if !opens_section(lab, l) && !closes_section(lab, l) && !inside {
            assert(kept.push(l).drop_last() =~= kept);
            assert forall|k: int| 0 <= k < kept.push(l).len() implies exists|i: int| 0 <= i < n
                && ls[i] == #[trigger] kept.push(l)[k] && !opens_section(lab, ls[i])
                && !closes_section(lab, ls[i]) by {
                if k < kept.len() {
                    assert(kept.push(l)[k] == kept[k]);
                    let i = choose|i: int| 0 <= i < n - 1 && ls[i] == kept[k]
                        && !opens_section(lab, ls[i]) && !closes_section(lab, ls[i]);
                } else {
                    assert(ls[n - 1] == kept.push(l)[k]);
                }
            }
        }
    }
}

/// The section scan of a prefix depends only on that prefix.
proof fn lemma_section_scan_prefix(a: Seq<Seq<char>>, b: Seq<Seq<char>>, lab: Option<Seq<char>>, n: int)
    requires
        0 <= n <= a.len(),
        n <= b.len(),
        forall|i: int| 0 <= i < n ==> a[i] == b[i],
    ensures
        section_scan(a, lab, n) == section_scan(b, lab, n),
    decreases n,
{
    if n > 0 {
        lemma_section_scan_prefix(a, b, lab, n - 1);
    }
}

/// Lines of which none is a marker all survive a scan that starts outside.
proof fn lemma_scan_plain(ls: Seq<Seq<char>>, lab: Seq<char>, n: int)
    requires
        0 <= n <= ls.len(),
        forall|i: int| 0 <= i < ls.len() ==> #[trigger] ls[i] != start_marker(lab) && ls[i] != end_marker(lab),
    ensures
        section_scan(ls, Some(lab), n) == (join_lines(ls.take(n)), false),
    decreases n,
{
    if n > 0 {
        lemma_scan_plain(ls, lab, n - 1);
        assert(ls.take(n).drop_last() =~= ls.take(n - 1));
    } else {
        assert(ls.take(0) =~= Seq::<Seq<char>>::empty());
    }
}

/// A complete section, from its opening marker to its closing one, adds
/// nothing to a scan and leaves it outside.
proof fn lemma_scan_section(pre: Seq<Seq<char>>, mids: Seq<Seq<char>>, lab: Seq<char>, k: int)
    requires
        forall|i: int| 0 <= i < mids.len() ==> #[trigger] mids[i] != end_marker(lab),
        start_marker(lab) != end_marker(lab),
        0 <= k <= mids.len() + 2,
    ensures ({
        let ls = pre + seq![start_marker(lab)] + mids + seq![end_marker(lab)];
        let before = section_scan(pre, Some(lab), pre.len() as int);
        &&& k == 0 ==> section_scan(ls, Some(lab), pre.len() + k) == before
        &&& 0 < k < mids.len() + 2 ==> section_scan(ls, Some(lab), pre.len() + k) == (before.0, true)
        &&& k == mids.len() + 2 ==> section_scan(ls, Some(lab), pre.len() + k) == (before.0, false)
    }),
    decreases k,
{
    let ls = pre + seq![start_marker(lab)] + mids + seq![end_marker(lab)];
    if k == 0 {
        lemma_section_scan_prefix(ls, pre, Some(lab), pre.len() as int);
    } else {
        lemma_scan_section(pre, mids, lab, k - 1);
        if k == 1 {
            assert(ls[pre.len() + k - 1] == start_marker(lab));
        } else if k < mids.len() + 2 {
            assert(ls[pre.len() + k - 1] == mids[k - 2]);
        } else {
            assert(ls[pre.len() + k - 1] == end_marker(lab));
        }
    }
}

/// `trim_end` of a concatenation.
proof fn lemma_trim_end_concat(a: Seq<char>, b: Seq<char>)
    ensures
        trim_end(a + b) == if trim_end(b).len() > 0 { a + trim_end(b) } else { trim_end(a) },
    decreases b.len(),
{
    if b.len() == 0 {
        assert(a + b =~= a);
    } else if is_ws(b.last()) {
        assert((a + b).drop_last() =~= a + b.drop_last());
        lemma_trim_end_concat(a, b.drop_last());
    } else {
        assert((a + b).last() == b.last());
    }
}

/// What `trim_end` leaves: a prefix, empty or ending in a non-space.
proof fn lemma_trim_end_shape(s: Seq<char>)
    ensures
        trim_end(s).len() <= s.len(),
        trim_end(s) == s.take(trim_end(s).len() as int),
        trim_end(s).len() > 0 ==> !is_ws(trim_end(s).last()),
        trim_end(trim_end(s)) == trim_end(s),
    decreases s.len(),
{
    if s.len() > 0 && is_ws(s.last()) {
        lemma_trim_end_shape(s.drop_last());
        assert(s.drop_last().take(trim_end(s).len() as int) =~= s.take(trim_end(s).len() as int));
    } else {
        assert(s.take(s.len() as int) =~= s);
    }
}

/// Joined lines, their trailing blank space trimmed: the last non-blank
/// line trimmed, and what precedes it.
pub open spec fn trimmed_lines(ks: Seq<Seq<char>>) -> Seq<Seq<char>>
    decreases ks.len(),
{
    if ks.len() == 0 {
        Seq::empty()
    } else if trim_end(ks.last()).len() > 0 {
        ks.drop_last().push(trim_end(ks.last()))
    } else {
        trimmed_lines(ks.drop_last())
    }
}

proof fn lemma_trim_join(ks: Seq<Seq<char>>)
    ensures
        trimmed_lines(ks).len() == 0 ==> trim_end(join_lines(ks)).len() == 0,
        trimmed_lines(ks).len() > 0 ==> trim_end(join_lines(ks)).len() > 0
            && trim_end(join_lines(ks)).push('\n') == join_lines(trimmed_lines(ks)),
        forall|i: int| 0 <= i < trimmed_lines(ks).len() ==> (exists|j: int| 0 <= j < ks.len()
            && (#[trigger] trimmed_lines(ks)[i] == ks[j] || (trimmed_lines(ks)[i] == trim_end(ks[j])
            && trim_end(ks[j]).len() > 0))),
    decreases ks.len(),
{
    if ks.len() > 0 {
        let k0 = ks.drop_last();
        let y = ks.last();
        lemma_trim_join(k0);
        assert(join_lines(ks) == join_lines(k0) + (y + seq!['\n'])) by {
            assert(join_lines(k0) + y + seq!['\n'] =~= join_lines(k0) + (y + seq!['\n']));
        }
        lemma_trim_end_concat(join_lines(k0), y + seq!['\n']);
        assert((y + seq!['\n']).drop_last() =~= y);
        if trim_end(y).len() > 0 {
            let t = k0.push(trim_end(y));
            assert(t.drop_last() =~= k0);
            assert forall|i: int| 0 <= i < t.len() implies (exists|j: int| 0 <= j < ks.len()
                && (#[trigger] t[i] == ks[j] || (t[i] == trim_end(ks[j]) && trim_end(ks[j]).len() > 0))) by {
                if i < k0.len() {
                    assert(t[i] == ks[i]);
                } else {
                    assert(t[i] == trim_end(ks[ks.len() - 1]));
                }
            }
        } else {
            assert forall|i: int| 0 <= i < trimmed_lines(ks).len() implies (exists|j: int| 0 <= j < ks.len()
                && (#[trigger] trimmed_lines(ks)[i] == ks[j] || (trimmed_lines(ks)[i] == trim_end(ks[j])
                && trim_end(ks[j]).len() > 0))) by {
                let j = choose|j: int| 0 <= j < k0.len() && (trimmed_lines(k0)[i] == k0[j]
                    || (trimmed_lines(k0)[i] == trim_end(k0[j]) && trim_end(k0[j]).len() > 0));
                assert(k0[j] == ks[j]);
            }
        }
    }
}

/// The hosts-file lines of entries, joined.
proof fn lemma_entries_join(es: Seq<(Seq<char>, Seq<Seq<char>>)>, n: int)
    requires
        0 <= n <= es.len(),
    ensures
        entries_text(es, n) == join_lines(Seq::new(n as nat, |i: int| entry_body(es[i]))),
    decreases n,
{
    if n > 0 {
        lemma_entries_join(es, n - 1);
        assert(Seq::new(n as nat, |i: int| entry_body(es[i])).drop_last()
            =~= Seq::new((n - 1) as nat, |i: int| entry_body(es[i])));
    } else {
        assert(Seq::new(0 as nat, |i: int| entry_body(es[i])) =~= Seq::<Seq<char>>::empty());
    }
}

/// A line is settled where it does not end in a carriage return and does
/// not differ from a marker of `lab` by trailing white space alone.
pub open spec fn settled_line(l: Seq<char>, lab: Seq<char>) -> bool {
    &&& (l.len() == 0 || l.last() != '\r')
    &&& (trim_end(l) == start_marker(lab) ==> l == start_marker(lab))
    &&& (trim_end(l) == end_marker(lab) ==> l == end_marker(lab))
}

/// Entries fit for a section of `lab`: each line is one line, and none is
/// read back as the section's closing marker.
pub open spec fn entries_fit(es: Seq<(Seq<char>, Seq<Seq<char>>)>, lab: Seq<char>) -> bool {
    forall|i: int| 0 <= i < es.len() ==> !(#[trigger] entry_body(es[i])).contains('\n')
        && crate::text::strip_cr(entry_body(es[i])) != end_marker(lab)
}

/// The rest of a hosts file as a section write leaves it: the file without
/// the lab's section, trailing white space trimmed, then a newline where
/// anything is left.
pub open spec fn rest_text(existing: Seq<char>, lab: Seq<char>) -> Seq<char> {
    let b = trim_end(without_sections(existing, Some(lab)));
    if b.len() > 0 { b.push('\n') } else { b }
}

/// Removing a lab's section right after writing it gives back the rest of
/// the file as the write left it. It holds for lab names without newlines
/// and entries whose lines are single lines other than the closing marker,
/// on files whose lines are all settled.
pub proof fn lemma_remove_after_inject(existing: Seq<char>, lab: Seq<char>, es: Seq<(Seq<char>, Seq<Seq<char>>)>)
    requires
        !lab.contains('\n'),
        entries_fit(es, lab),
        forall|i: int| 0 <= i < lines(existing).len() ==> settled_line(#[trigger] lines(existing)[i], lab),
    ensures
        without_sections(injected(existing, lab, es), Some(lab)) == rest_text(existing, lab),
{
    reveal_strlit("###### NLINK-LAB-");
    reveal_strlit("-START ######");
    reveal_strlit("-END ######");
    let start = start_marker(lab);
    let end = end_marker(lab);
    let lx = lines(existing);
    // the markers are single lines, distinct, ending in '#'
    assert(start.len() > 0 && start.last() == '#');
    assert(end.len() > 0 && end.last() == '#');
    assert(start != end) by {
        if start == end {
            assert(start[17 + lab.len() as int] == end[17 + lab.len() as int]);
        }
    }
    assert(!start.contains('\n')) by {
        if start.contains('\n') {
            let k = choose|k: int| 0 <= k < start.len() && start[k] == '\n';
            if 17 <= k < 17 + lab.len() {
                assert(lab[k - 17] == '\n');
            }
        }
    }
    assert(!end.contains('\n')) by {
        if end.contains('\n') {
            let k = choose|k: int| 0 <= k < end.len() && end[k] == '\n';
            if 17 <= k < 17 + lab.len() {
                assert(lab[k - 17] == '\n');
            }
        }
    }
    // the rest of the file: its kept lines
    lemma_kept_scan(lx, Some(lab), lx.len() as int);
    let ks = kept_scan(lx, Some(lab), lx.len() as int).0;
    let w = without_sections(existing, Some(lab));
    assert(w == join_lines(ks));
    lemma_lines_have_no_newline(existing);
    lemma_trim_join(ks);
    let b = trim_end(w);
    let tl = trimmed_lines(ks);
    lemma_trim_end_shape(w);
    // the lines before the section: no newline, no final carriage return, no marker
    assert forall|i: int| 0 <= i < tl.len() implies !(#[trigger] tl[i]).contains('\n')
        && crate::text::strip_cr(tl[i]) == tl[i] && tl[i] != start && tl[i] != end by {
        let j = choose|j: int| 0 <= j < ks.len() && (tl[i] == ks[j]
            || (tl[i] == trim_end(ks[j]) && trim_end(ks[j]).len() > 0));
        let m = choose|m: int| 0 <= m < lx.len() && lx[m] == ks[j]
            && !opens_section(Some(lab), lx[m]) && !closes_section(Some(lab), lx[m]);
        assert(settled_line(lx[m], lab));
        assert(!lx[m].contains('\n'));
        lemma_trim_end_shape(ks[j]);
        if tl[i] != ks[j] {
            assert(!is_ws(tl[i].last()));
            assert(tl[i].contains('\n') ==> ks[j].contains('\n')) by {
                if tl[i].contains('\n') {
                    let k = choose|k: int| 0 <= k < tl[i].len() && tl[i][k] == '\n';
                    assert(ks[j][k] == '\n');
                }
            }
        }
    }
    // the section's lines
    let bodies = Seq::new(es.len(), |i: int| entry_body(es[i]));
    lemma_entries_join(es, es.len() as int);
    let sec = seq![start] + bodies + seq![end];
    lemma_join_append(seq![start] + bodies, seq![end]);
    lemma_join_append(seq![start], bodies);
    assert(join_lines(Seq::<Seq<char>>::empty()) == Seq::<char>::empty());
    assert(join_lines(seq![start]) =~= start + seq!['\n']) by {
        assert(seq![start].drop_last() =~= Seq::<Seq<char>>::empty());
        assert(seq![start].last() == start);
    }
    assert(join_lines(seq![end]) =~= end + seq!['\n']) by {
        assert(seq![end].drop_last() =~= Seq::<Seq<char>>::empty());
        assert(seq![end].last() == end);
    }
    let s = section_text(lab, es);
    assert(s =~= join_lines(sec));
    assert forall|i: int| 0 <= i < sec.len() implies !(#[trigger] sec[i]).contains('\n') by {
        if 0 < i < sec.len() - 1 {
            assert(sec[i] == bodies[i - 1]);
        }
    }
    lemma_lines_of_join(sec);
    let mids = Seq::new(bodies.len(), |i: int| crate::text::strip_cr(bodies[i]));
    assert(crate::text::strip_cr(start) == start);
    assert(crate::text::strip_cr(end) == end);
    assert(Seq::new(sec.len(), |i: int| crate::text::strip_cr(sec[i])) =~= seq![start] + mids + seq![end]);
    assert forall|i: int| 0 <= i < mids.len() implies #[trigger] mids[i] != end by {
        assert(bodies[i] == entry_body(es[i]));
    }
    // the prefix written before the section
    let p = if b.len() > 0 { b.push('\n') } else { b };
    let t = injected(existing, lab, es);
    assert(t == p + s);
    if tl.len() > 0 {
        assert(p == join_lines(tl));
    } else {
        assert(p =~= join_lines(tl));
    }
    lemma_lines_of_join(tl);
    assert(Seq::new(tl.len(), |i: int| crate::text::strip_cr(tl[i])) =~= tl);
    lemma_line_scan_concat(p, s, s.len() as int);
    assert(lines(t) =~= tl + (seq![start] + mids + seq![end]));
    assert(tl + (seq![start] + mids + seq![end]) =~= tl + seq![start] + mids + seq![end]);
    lemma_scan_section(tl, mids, lab, mids.len() + 2int);
    lemma_scan_plain(tl, lab, tl.len() as int);
    assert(tl.take(tl.len() as int) =~= tl);
    let w2 = without_sections(t, Some(lab));
    assert(w2 == p);
}

proof fn lemma_scan_rejoin(s: Seq<char>, n: int)
    requires
        0 <= n <= s.len(),
        !s.contains('\r'),
    ensures
        join_lines(crate::text::line_scan(s, n).0) + crate::text::line_scan(s, n).1 == s.take(n),
        !crate::text::line_scan(s, n).1.contains('\r'),
        forall|i: int| 0 <= i < crate::text::line_scan(s, n).0.len()
            ==> !(#[trigger] crate::text::line_scan(s, n).0[i]).contains('\r'),
    decreases n,
{
    if n == 0 {
        assert(s.take(0) =~= Seq::<char>::empty());
    } else {
        lemma_line_scan_prefix(s, s, n - 1);
        lemma_scan_rejoin(s, n - 1);
        let (ls, cur) = crate::text::line_scan(s, n - 1);
        assert(s[n - 1] != '\r');
        if s[n - 1] == '\n' {
            assert(crate::text::strip_cr(cur) == cur);
            assert(ls.push(cur).drop_last() =~= ls);
            assert(join_lines(ls.push(cur)) == join_lines(ls) + cur + seq!['\n']);
            assert(s.take(n) =~= s.take(n - 1) + seq!['\n']);
            assert(join_lines(ls.push(cur)) + Seq::<char>::empty() =~= s.take(n));
            assert(forall|i: int| 0 <= i < ls.len() ==> ls.push(cur)[i] == ls[i]);
        } else {
            let c2 = cur.push(s[n - 1]);
            assert(s.take(n) =~= s.take(n - 1).push(s[n - 1]));
            assert(join_lines(ls) + c2 =~= (join_lines(ls) + cur).push(s[n - 1]));
            assert(!c2.contains('\r')) by {
                if c2.contains('\r') {
                    let k = choose|k: int| 0 <= k < c2.len() && c2[k] == '\r';
                    if k < cur.len() {
                        assert(cur[k] == '\r');
                    }
                }
            }
        }
    }
}

/// A hosts file without carriage returns that ends in a newline (or is
/// empty) is the join of its lines.
proof fn lemma_join_own_lines(h: Seq<char>)
    requires
        !h.contains('\r'),
        h.len() == 0 || h.last() == '\n',
    ensures
        join_lines(lines(h)) == h,
        forall|i: int| 0 <= i < lines(h).len() ==> !(#[trigger] lines(h)[i]).contains('\r'),
{
    lemma_scan_rejoin(h, h.len() as int);
    let (ls, cur) = crate::text::line_scan(h, h.len() as int);
    assert(h.take(h.len() as int) =~= h);
    if h.len() > 0 {
        lemma_line_scan_prefix(h, h, h.len() - 1);
        assert(cur.len() == 0);
    } else {
        assert(cur.len() == 0);
    }
    assert(join_lines(ls) + cur =~= join_lines(ls));
}

/// The entries' text ends each line with a newline: nothing is left over
/// when scanning it.
proof fn lemma_entries_scan_closed(es: Seq<(Seq<char>, Seq<Seq<char>>)>, n: int)
    requires
        0 <= n <= es.len(),
    ensures
        crate::text::line_scan(entries_text(es, n), entries_text(es, n).len() as int).1.len() == 0,
{
    let e = entries_text(es, n);
    if n > 0 {
        assert(e[e.len() - 1] == '\n');
    } else {
        assert(e.len() == 0);
    }
}

/// Removing a lab's section right after writing it into a hosts file gives
/// back that file, and removing it once more changes nothing. It holds for
/// lab names without newlines and entries none of whose lines reads as the
/// closing marker, on files without carriage returns that end in a single
/// newline after non-blank text (or are empty), with no line that is one
/// of the lab's markers. It fails on the file "\n" (the write drops the
/// blank line).
pub proof fn lemma_remove_restores(h: Seq<char>, lab: Seq<char>, es: Seq<(Seq<char>, Seq<Seq<char>>)>)
    requires
        !lab.contains('\n'),
        forall|i: int| 0 <= i < lines(entries_text(es, es.len() as int)).len()
            ==> #[trigger] lines(entries_text(es, es.len() as int))[i] != end_marker(lab),
        !h.contains('\r'),
        h.len() == 0 || (h.last() == '\n' && trim_end(h).len() + 1 == h.len() && trim_end(h).len() > 0),
        forall|i: int| 0 <= i < lines(h).len() ==> #[trigger] lines(h)[i] != start_marker(lab)
            && lines(h)[i] != end_marker(lab),
    ensures
        without_sections(injected(h, lab, es), Some(lab)) == h,
        without_sections(h, Some(lab)) == h,
{
    reveal_strlit("###### NLINK-LAB-");
    reveal_strlit("-START ######");
    reveal_strlit("-END ######");
    let start = start_marker(lab);
    let end = end_marker(lab);
    assert(start.len() > 0 && start.last() == '#');
    assert(end.len() > 0 && end.last() == '#');
    assert(start != end) by {
        if start == end {
            assert(start[17 + lab.len() as int] == end[17 + lab.len() as int]);
        }
    }
    assert(!start.contains('\n')) by {
        if start.contains('\n') {
            let k = choose|k: int| 0 <= k < start.len() && start[k] == '\n';
            if 17 <= k < 17 + lab.len() {
                assert(lab[k - 17] == '\n');
            }
        }
    }
    assert(!end.contains('\n')) by {
        if end.contains('\n') {
            let k = choose|k: int| 0 <= k < end.len() && end[k] == '\n';
            if 17 <= k < 17 + lab.len() {
                assert(lab[k - 17] == '\n');
            }
        }
    }
    // the file: its own lines, none a marker
    let lh = lines(h);
    lemma_join_own_lines(h);
    lemma_lines_have_no_newline(h);
    lemma_scan_plain(lh, lab, lh.len() as int);
    assert(lh.take(lh.len() as int) =~= lh);
    assert(without_sections(h, Some(lab)) == h);
    lemma_lines_of_join(lh);
    assert forall|i: int| 0 <= i < lh.len() implies crate::text::strip_cr(#[trigger] lh[i]) == lh[i] by {
        if lh[i].len() > 0 && lh[i].last() == '\r' {
            assert(lh[i].contains('\r'));
        }
    }
    assert(Seq::new(lh.len(), |i: int| crate::text::strip_cr(lh[i])) =~= lh);
    // what the write keeps of the file: the file itself
    let b = trim_end(h);
    let p = if b.len() > 0 { b.push('\n') } else { b };
    if h.len() > 0 {
        lemma_trim_end_shape(h);
        assert(b =~= h.take(h.len() - 1));
        assert(b.push('\n') =~= h);
    } else {
        assert(trim_end(h).len() == 0);
    }
    assert(p == h);
    // the section's lines: the start marker, the entries' lines, the end marker
    let e = entries_text(es, es.len() as int);
    lemma_entries_scan_closed(es, es.len() as int);
    let le = lines(e);
    assert(le == crate::text::line_scan(e, e.len() as int).0);
    assert(join_lines(Seq::<Seq<char>>::empty()) == Seq::<char>::empty());
    assert(join_lines(seq![start]) =~= start + seq!['\n']) by {
        assert(seq![start].drop_last() =~= Seq::<Seq<char>>::empty());
        assert(seq![start].last() == start);
    }
    assert(join_lines(seq![end]) =~= end + seq!['\n']) by {
        assert(seq![end].drop_last() =~= Seq::<Seq<char>>::empty());
        assert(seq![end].last() == end);
    }
    lemma_lines_of_join(seq![start]);
    lemma_lines_of_join(seq![end]);
    assert(crate::text::strip_cr(start) == start);
    assert(crate::text::strip_cr(end) == end);
    assert(Seq::new(1, |i: int| crate::text::strip_cr(seq![start][i])) =~= seq![start]);
    assert(Seq::new(1, |i: int| crate::text::strip_cr(seq![end][i])) =~= seq![end]);
    let a1 = start + seq!['\n'];
    let a3 = end + seq!['\n'];
    lemma_line_scan_concat(a1, e, e.len() as int);
    let a2 = a1 + e;
    assert(crate::text::line_scan(a2, a2.len() as int) == (seq![start] + le, Seq::<char>::empty()));
    lemma_line_scan_concat(a2, a3, a3.len() as int);
    let s = section_text(lab, es);
    assert(s =~= a2 + a3);
    assert(crate::text::line_scan(s, s.len() as int) == (seq![start] + le + seq![end], Seq::<char>::empty()));
    // the written file: the file's lines, then the section's
    let t = injected(h, lab, es);
    assert(t == p + s);
    lemma_line_scan_concat(h, s, s.len() as int);
    assert(lines(t) =~= lh + (seq![start] + le + seq![end]));
    assert(lh + (seq![start] + le + seq![end]) =~= lh + seq![start] + le + seq![end]);
    lemma_scan_section(lh, le, lab, le.len() + 2int);
    let w2 = without_sections(t, Some(lab));
    assert(w2 == h);
}

/// Writing a lab's section into a hosts file that already holds it
/// replaces it: writing the same entries twice gives the file that writing
/// them once gives. It holds for lab names without newlines and entries
/// whose lines are single lines other than the closing marker, on files
/// whose lines are all settled.
pub proof fn lemma_inject_idempotent(existing: Seq<char>, lab: Seq<char>, es: Seq<(Seq<char>, Seq<Seq<char>>)>)
    requires
        !lab.contains('\n'),
        entries_fit(es, lab),
        forall|i: int| 0 <= i < lines(existing).len() ==> settled_line(#[trigger] lines(existing)[i], lab),
    ensures
        injected(injected(existing, lab, es), lab, es) == injected(existing, lab, es),
{
    lemma_remove_after_inject(existing, lab, es);
    let b = trim_end(without_sections(existing, Some(lab)));
    let w2 = without_sections(injected(existing, lab, es), Some(lab));
    lemma_trim_end_shape(without_sections(existing, Some(lab)));
    if b.len() > 0 {
        lemma_trim_end_concat(b, seq!['\n']);
        assert(b.push('\n') =~= b + seq!['\n']);
        assert(trim_end(seq!['\n']) =~= Seq::<char>::empty()) by {
            assert(seq!['\n'].drop_last() =~= Seq::<char>::empty());
            assert(is_ws(seq!['\n'].last()));
            assert(trim_end(Seq::<char>::empty()) == Seq::<char>::empty());
        }
    }
    assert(trim_end(w2) == b);
}

} // verus!
