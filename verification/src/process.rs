//! The order in which nodes' processes are started: dependencies first.
use vstd::prelude::*;
use crate::map::StrMap;
use crate::text::{lex_lt, strictly_sorted, str_eq, owned};
use crate::types::{Node, strs};

verus! {

/// The `depends_on` list of node `x`.
pub open spec fn deps(nodes: StrMap<Node>, x: Seq<char>) -> Seq<Seq<char>> {
    strs(nodes.view()[x].depends_on@)
}

/// Every dependency of node `x` is among `s`.
pub open spec fn deps_within(nodes: StrMap<Node>, x: Seq<char>, s: Seq<Seq<char>>) -> bool {
    forall|j: int| 0 <= j < deps(nodes, x).len() ==> s.contains(#[trigger] deps(nodes, x)[j])
}

/// A start order of the nodes: first the nodes whose dependencies can all
/// be started, each after every node it depends on; then, in name order,
/// the nodes that wait on a missing node or a cycle (each has a dependency
/// that the first part does not start).
pub open spec fn start_order(nodes: StrMap<Node>, r: Seq<Seq<char>>, k: int) -> bool {
    &&& 0 <= k <= r.len()
    &&& forall|i: int| 0 <= i < k ==> deps_within(nodes, #[trigger] r[i], r.take(i))
    &&& forall|i: int| k <= i < r.len() ==> !deps_within(nodes, #[trigger] r[i], r.take(k))
    &&& strictly_sorted(r.skip(k))
}

/// The nodes among the first `n` (in name order) that are ready once the
/// nodes `placed` have started: not started yet, and every dependency
/// started.
pub open spec fn ready_upto(nodes: StrMap<Node>, placed: Seq<Seq<char>>, n: int) -> Seq<Seq<char>>
    decreases n,
{
    if n <= 0 {
        Seq::empty()
    } else {
        let prev = ready_upto(nodes, placed, n - 1);
        let x = nodes.keys()[n - 1];
        if !placed.contains(x) && deps_within(nodes, x, placed) { prev.push(x) } else { prev }
    }
}

/// The next level: the nodes that are ready once `placed` have started, in
/// name order.
pub open spec fn ready(nodes: StrMap<Node>, placed: Seq<Seq<char>>) -> Seq<Seq<char>> {
    ready_upto(nodes, placed, nodes.keys().len() as int)
}

/// The first `k` levels, one after another: first the nodes without
/// dependencies, then those whose dependencies all came before, and so on.
pub open spec fn levels(nodes: StrMap<Node>, k: nat) -> Seq<Seq<char>>
    decreases k,
{
    if k == 0 {
        Seq::empty()
    } else {
        let p = levels(nodes, (k - 1) as nat);
        p + ready(nodes, p)
    }
}

/// The nodes among the first `n` (in name order) that are not in `placed`.
pub open spec fn rest_upto(nodes: StrMap<Node>, placed: Seq<Seq<char>>, n: int) -> Seq<Seq<char>>
    decreases n,
{
    if n <= 0 {
        Seq::empty()
    } else {
        let prev = rest_upto(nodes, placed, n - 1);
        let x = nodes.keys()[n - 1];
        if !placed.contains(x) { prev.push(x) } else { prev }
    }
}

/// The start order of the nodes: level by level (as many levels as there
/// are nodes, which is enough for every node that can start), each level
/// in name order; then the nodes that wait on a missing node or a cycle,
/// in name order.
pub open spec fn start_sequence(nodes: StrMap<Node>) -> Seq<Seq<char>> {
    let p = levels(nodes, nodes.keys().len());
    p + rest_upto(nodes, p, nodes.keys().len() as int)
}

/// Whether `s` holds `x`.
pub(crate) fn holds(s: &Vec<String>, x: &str) -> (b: bool)
    ensures
        b == strs(s@).contains(x@),
{
    let mut i: usize = 0;
    while i < s.len()
        invariant
            i <= s@.len(),
            forall|j: int| 0 <= j < i ==> strs(s@)[j] != x@,
        decreases s@.len() - i,
    {
        if str_eq(s[i].as_str(), x) {
            assert(strs(s@)[i as int] == x@);
            return true;
        }
        i = i + 1;
    }
    assert forall|j: int| 0 <= j < strs(s@).len() implies strs(s@)[j] != x@ by {}
    false
}

/// Whether every entry of `ds` is held by `s`.
fn all_held(s: &Vec<String>, ds: &Vec<String>) -> (b: bool)
    ensures
        b == forall|j: int| 0 <= j < ds@.len() ==> strs(s@).contains(#[trigger] strs(ds@)[j]),
{
    let mut i: usize = 0;
    while i < ds.len()
        invariant
            i <= ds@.len(),
            forall|j: int| 0 <= j < i ==> strs(s@).contains(#[trigger] strs(ds@)[j]),
        decreases ds@.len() - i,
    {
        if !holds(s, ds[i].as_str()) {
            assert(!strs(s@).contains(strs(ds@)[i as int]));
            return false;
        }
        i = i + 1;
    }
    true
}


proof fn lemma_ready_upto(nodes: StrMap<Node>, p: Seq<Seq<char>>, m: int)
    requires
        nodes.wf(),
        0 <= m <= nodes.keys().len(),
    ensures
        forall|i: int| 0 <= i < ready_upto(nodes, p, m).len() ==> exists|j: int| 0 <= j < m
            && #[trigger] ready_upto(nodes, p, m)[i] == nodes.keys()[j],
        forall|i: int| 0 <= i < ready_upto(nodes, p, m).len() ==> !p.contains(#[trigger] ready_upto(nodes, p, m)[i])
            && deps_within(nodes, ready_upto(nodes, p, m)[i], p),
        forall|j: int| 0 <= j < m && !p.contains(#[trigger] nodes.keys()[j]) && deps_within(nodes, nodes.keys()[j], p)
            ==> ready_upto(nodes, p, m).contains(nodes.keys()[j]),
        strictly_sorted(ready_upto(nodes, p, m)),
    decreases m,
{
    nodes.lemma_view();
    if m > 0 {
        lemma_ready_upto(nodes, p, m - 1);
        let prev = ready_upto(nodes, p, m - 1);
        let r = ready_upto(nodes, p, m);
        let x = nodes.keys()[m - 1];
        if !p.contains(x) && deps_within(nodes, x, p) {
            assert(r == prev.push(x));
            assert forall|i: int| 0 <= i < r.len() implies exists|j: int| 0 <= j < m && #[trigger] r[i] == nodes.keys()[j] by {
                if i < prev.len() {
                    assert(r[i] == prev[i]);
                    let j = choose|j: int| 0 <= j < m - 1 && prev[i] == nodes.keys()[j];
                    assert(r[i] == nodes.keys()[j]);
                } else {
                    assert(r[i] == nodes.keys()[m - 1]);
                }
            }
            assert forall|i: int, k: int| #![trigger r[i], r[k]] 0 <= i < k < r.len() implies lex_lt(r[i], r[k]) by {
                if k < prev.len() {
                    assert(r[i] == prev[i] && r[k] == prev[k]);
                } else {
                    assert(r[i] == prev[i]);
                    let j = choose|j: int| 0 <= j < m - 1 && prev[i] == nodes.keys()[j];
                    assert(lex_lt(nodes.keys()[j], nodes.keys()[m - 1]));
                }
            }
            assert forall|j: int| 0 <= j < m && !p.contains(#[trigger] nodes.keys()[j]) && deps_within(nodes, nodes.keys()[j], p)
                implies r.contains(nodes.keys()[j]) by {
                if j < m - 1 {
                    let w = choose|w: int| 0 <= w < prev.len() && prev[w] == nodes.keys()[j];
                    assert(r[w] == prev[w]);
                } else {
                    assert(r[r.len() - 1] == x);
                }
            }
            assert forall|i: int| 0 <= i < r.len() implies !p.contains(#[trigger] r[i]) && deps_within(nodes, r[i], p) by {
                if i < prev.len() {
                    assert(r[i] == prev[i]);
                }
            }
        } else {
            assert forall|j: int| 0 <= j < m && !p.contains(#[trigger] nodes.keys()[j]) && deps_within(nodes, nodes.keys()[j], p)
                implies r.contains(nodes.keys()[j]) by {
                if j == m - 1 {
                    assert(false);
                }
            }
            assert forall|i: int| 0 <= i < r.len() implies exists|j: int| 0 <= j < m && #[trigger] r[i] == nodes.keys()[j] by {
                let j = choose|j: int| 0 <= j < m - 1 && prev[i] == nodes.keys()[j];
            }
        }
    }
}

proof fn lemma_rest_upto(nodes: StrMap<Node>, p: Seq<Seq<char>>, m: int)
    requires
        nodes.wf(),
        0 <= m <= nodes.keys().len(),
    ensures
        forall|i: int| 0 <= i < rest_upto(nodes, p, m).len() ==> exists|j: int| 0 <= j < m
            && #[trigger] rest_upto(nodes, p, m)[i] == nodes.keys()[j],
        forall|i: int| 0 <= i < rest_upto(nodes, p, m).len() ==> !p.contains(#[trigger] rest_upto(nodes, p, m)[i]),
        forall|j: int| 0 <= j < m && !p.contains(#[trigger] nodes.keys()[j]) ==> rest_upto(nodes, p, m).contains(nodes.keys()[j]),
        strictly_sorted(rest_upto(nodes, p, m)),
    decreases m,
{
    nodes.lemma_view();
    if m > 0 {
        lemma_rest_upto(nodes, p, m - 1);
        let prev = rest_upto(nodes, p, m - 1);
        let r = rest_upto(nodes, p, m);
        let x = nodes.keys()[m - 1];
        if !p.contains(x) {
            assert(r == prev.push(x));
            assert forall|i: int| 0 <= i < r.len() implies exists|j: int| 0 <= j < m && #[trigger] r[i] == nodes.keys()[j] by {
                if i < prev.len() {
                    assert(r[i] == prev[i]);
                    let j = choose|j: int| 0 <= j < m - 1 && prev[i] == nodes.keys()[j];
                    assert(r[i] == nodes.keys()[j]);
                } else {
                    assert(r[i] == nodes.keys()[m - 1]);
                }
            }
            assert forall|i: int, k: int| #![trigger r[i], r[k]] 0 <= i < k < r.len() implies lex_lt(r[i], r[k]) by {
                if k < prev.len() {
                    assert(r[i] == prev[i] && r[k] == prev[k]);
                } else {
                    assert(r[i] == prev[i]);
                    let j = choose|j: int| 0 <= j < m - 1 && prev[i] == nodes.keys()[j];
                    assert(lex_lt(nodes.keys()[j], nodes.keys()[m - 1]));
                }
            }
            assert forall|j: int| 0 <= j < m && !p.contains(#[trigger] nodes.keys()[j]) implies r.contains(nodes.keys()[j]) by {
                if j < m - 1 {
                    let w = choose|w: int| 0 <= w < prev.len() && prev[w] == nodes.keys()[j];
                    assert(r[w] == prev[w]);
                } else {
                    assert(r[r.len() - 1] == x);
                }
            }
            assert forall|i: int| 0 <= i < r.len() implies !p.contains(#[trigger] r[i]) by {
                if i < prev.len() {
                    assert(r[i] == prev[i]);
                }
            }
        } else {
            assert forall|i: int| 0 <= i < r.len() implies exists|j: int| 0 <= j < m && #[trigger] r[i] == nodes.keys()[j] by {
                let j = choose|j: int| 0 <= j < m - 1 && prev[i] == nodes.keys()[j];
            }
        }
    }
}

proof fn lemma_sorted_no_dups(s: Seq<Seq<char>>)
    requires
        strictly_sorted(s),
    ensures
        s.no_duplicates(),
{
    assert forall|i: int, j: int| 0 <= i < s.len() && 0 <= j < s.len() && i != j implies s[i] != s[j] by {
        crate::text::lemma_lex_order();
        if i < j {
            assert(lex_lt(s[i], s[j]));
        } else {
            assert(lex_lt(s[j], s[i]));
        }
        crate::text::lemma_lex_irreflexive(s[i]);
    }
}

proof fn lemma_levels(nodes: StrMap<Node>, k: nat)
    requires
        nodes.wf(),
    ensures
        levels(nodes, k).no_duplicates(),
        forall|i: int| 0 <= i < levels(nodes, k).len() ==> nodes.keys().contains(#[trigger] levels(nodes, k)[i]),
        forall|i: int| 0 <= i < levels(nodes, k).len()
            ==> deps_within(nodes, #[trigger] levels(nodes, k)[i], levels(nodes, k).take(i)),
        levels(nodes, k).len() <= nodes.keys().len(),
    decreases k,
{
    if k > 0 {
        lemma_levels(nodes, (k - 1) as nat);
        let p = levels(nodes, (k - 1) as nat);
        let q = ready(nodes, p);
        let l = levels(nodes, k);
        lemma_ready_upto(nodes, p, nodes.keys().len() as int);
        lemma_sorted_no_dups(q);
        assert(l == p + q);
        assert forall|i: int| 0 <= i < l.len() implies nodes.keys().contains(#[trigger] l[i]) by {
            if i < p.len() {
                assert(l[i] == p[i]);
            } else {
                assert(l[i] == q[i - p.len()]);
                let j = choose|j: int| 0 <= j < nodes.keys().len() && q[i - p.len()] == nodes.keys()[j];
            }
        }
        assert forall|i: int, j: int| 0 <= i < l.len() && 0 <= j < l.len() && i != j implies l[i] != l[j] by {
            if i < p.len() && j < p.len() {
                assert(l[i] == p[i] && l[j] == p[j]);
            } else if i >= p.len() && j >= p.len() {
                assert(l[i] == q[i - p.len()] && l[j] == q[j - p.len()]);
            } else if i < p.len() {
                assert(l[i] == p[i] && l[j] == q[j - p.len()]);
                assert(!p.contains(q[j - p.len()]));
            } else {
                assert(l[j] == p[j] && l[i] == q[i - p.len()]);
                assert(!p.contains(q[i - p.len()]));
            }
        }
        assert forall|i: int| 0 <= i < l.len() implies deps_within(nodes, #[trigger] l[i], l.take(i)) by {
            if i < p.len() {
                assert(l[i] == p[i]);
                assert(l.take(i) =~= p.take(i));
            } else {
                assert(l[i] == q[i - p.len()]);
                assert(deps_within(nodes, l[i], p));
                assert forall|j: int| 0 <= j < deps(nodes, l[i]).len()
                    implies l.take(i).contains(#[trigger] deps(nodes, l[i])[j]) by {
                    let d = deps(nodes, l[i])[j];
                    assert(p.contains(d));
                    let w = choose|w: int| 0 <= w < p.len() && p[w] == d;
                    assert(l.take(i)[w] == p[w]);
                }
            }
        }
        crate::process::lemma_no_dup_subset_len(l, nodes.keys());
    }
}

proof fn lemma_levels_stay(nodes: StrMap<Node>, k: nat, j: nat)
    requires
        k <= j,
        ready(nodes, levels(nodes, k)).len() == 0,
    ensures
        levels(nodes, j) == levels(nodes, k),
    decreases j - k,
{
    if j > k {
        lemma_levels_stay(nodes, k, (j - 1) as nat);
        assert(levels(nodes, j) =~= levels(nodes, (j - 1) as nat) + ready(nodes, levels(nodes, (j - 1) as nat)));
        assert(ready(nodes, levels(nodes, (j - 1) as nat)) =~= Seq::<Seq<char>>::empty());
    }
}

proof fn lemma_levels_grow(nodes: StrMap<Node>, k: nat)
    requires
        ready(nodes, levels(nodes, k)).len() > 0,
    ensures
        levels(nodes, k).len() >= k,
    decreases k,
{
    if k > 0 {
        let km = (k - 1) as nat;
        if ready(nodes, levels(nodes, km)).len() == 0 {
            lemma_levels_stay(nodes, km, k);
        } else {
            lemma_levels_grow(nodes, km);
        }
    }
}

/// The levels stop growing within as many rounds as there are nodes.
proof fn lemma_levels_settle(nodes: StrMap<Node>)
    requires
        nodes.wf(),
    ensures
        ready(nodes, levels(nodes, nodes.keys().len())).len() == 0,
{
    let n = nodes.keys().len();
    if ready(nodes, levels(nodes, n)).len() > 0 {
        lemma_levels_grow(nodes, n);
        lemma_levels(nodes, n + 1);
        assert(levels(nodes, n + 1) == levels(nodes, n) + ready(nodes, levels(nodes, n)));
    }
}

/// The start sequence holds every node once, in a start order: each node
/// of the leveled part after all its dependencies, then the nodes that can
/// never start, in name order.
pub proof fn lemma_start_sequence(nodes: StrMap<Node>)
    requires
        nodes.wf(),
    ensures
        start_sequence(nodes).no_duplicates(),
        start_sequence(nodes).to_set() == nodes.keys().to_set(),
        start_order(nodes, start_sequence(nodes), levels(nodes, nodes.keys().len()).len() as int),
{
    nodes.lemma_view();
    let n = nodes.keys().len();
    let p = levels(nodes, n);
    let m = p.len() as int;
    let q = rest_upto(nodes, p, n as int);
    let r = start_sequence(nodes);
    lemma_levels(nodes, n);
    lemma_levels_settle(nodes);
    lemma_ready_upto(nodes, p, n as int);
    lemma_rest_upto(nodes, p, n as int);
    lemma_sorted_no_dups(q);
    assert(r == p + q);
    assert forall|i: int, j: int| 0 <= i < r.len() && 0 <= j < r.len() && i != j implies r[i] != r[j] by {
        if i < m && j < m {
            assert(r[i] == p[i] && r[j] == p[j]);
        } else if i >= m && j >= m {
            assert(r[i] == q[i - m] && r[j] == q[j - m]);
        } else if i < m {
            assert(r[i] == p[i] && r[j] == q[j - m]);
            assert(!p.contains(q[j - m]));
        } else {
            assert(r[j] == p[j] && r[i] == q[i - m]);
            assert(!p.contains(q[i - m]));
        }
    }
    assert(r.to_set() =~= nodes.keys().to_set()) by {
        assert forall|x: Seq<char>| r.to_set().contains(x) <==> nodes.keys().to_set().contains(x) by {
            if r.to_set().contains(x) {
                let i = choose|i: int| 0 <= i < r.len() && r[i] == x;
                if i < m {
                    assert(r[i] == p[i]);
                } else {
                    assert(r[i] == q[i - m]);
                    let j = choose|j: int| 0 <= j < n && q[i - m] == nodes.keys()[j];
                    assert(nodes.keys()[j] == x);
                }
            }
            if nodes.keys().to_set().contains(x) {
                let j = choose|j: int| 0 <= j < n && nodes.keys()[j] == x;
                if p.contains(x) {
                    let w = choose|w: int| 0 <= w < m && p[w] == x;
                    assert(r[w] == p[w]);
                } else {
                    assert(q.contains(nodes.keys()[j]));
                    let w = choose|w: int| 0 <= w < q.len() && q[w] == x;
                    assert(r[m + w] == q[w]);
                }
            }
        }
    }
    assert(r.take(m) =~= p);
    assert(r.skip(m) =~= q);
    assert forall|i: int| 0 <= i < m implies deps_within(nodes, #[trigger] r[i], r.take(i)) by {
        assert(r[i] == p[i]);
        assert(r.take(i) =~= p.take(i));
    }
    assert forall|i: int| m <= i < r.len() implies !deps_within(nodes, #[trigger] r[i], r.take(m)) by {
        assert(r[i] == q[i - m]);
        let j = choose|j: int| 0 <= j < n && q[i - m] == nodes.keys()[j];
        assert(!p.contains(nodes.keys()[j]));
        if deps_within(nodes, nodes.keys()[j], p) {
            assert(ready(nodes, p).contains(nodes.keys()[j]));
        }
    }
}

/// The nodes ready once `placed` have started (see [`ready`]).
fn ready_names(nodes: &StrMap<Node>, placed: &Vec<String>) -> (r: Vec<String>)
    requires
        nodes.wf(),
    ensures
        strs(r@) == ready(*nodes, strs(placed@)),
{
    proof { nodes.lemma_view(); }
    let mut out: Vec<String> = Vec::new();
    let mut i: usize = 0;
    while i < nodes.len()
        invariant
            i <= nodes.keys().len(),
            nodes.wf(),
            strs(out@) == ready_upto(*nodes, strs(placed@), i as int),
        decreases nodes.keys().len() - i,
    {
        proof { nodes.lemma_view(); }
        let name = nodes.key_at(i);
        let node = nodes.value_at(i);
        assert(nodes.view()[name@] == *node);
        let ghost before = strs(out@);
        if !holds(placed, name.as_str()) && all_held(placed, &node.depends_on) {
            proof {
                assert(deps_within(*nodes, name@, strs(placed@))) by {
                    assert forall|j: int| 0 <= j < deps(*nodes, name@).len()
                        implies strs(placed@).contains(#[trigger] deps(*nodes, name@)[j]) by {
                        assert(deps(*nodes, name@)[j] == strs(node.depends_on@)[j]);
                    }
                }
            }
            out.push(owned(name.as_str()));
            assert(strs(out@) =~= before.push(name@));
        } else {
            proof {
                if !strs(placed@).contains(name@) && deps_within(*nodes, name@, strs(placed@)) {
                    assert forall|j: int| 0 <= j < node.depends_on@.len()
                        implies strs(placed@).contains(#[trigger] strs(node.depends_on@)[j]) by {
                        assert(deps(*nodes, name@)[j] == strs(node.depends_on@)[j]);
                    }
                }
            }
        }
        i = i + 1;
    }
    out
}

/// The nodes not in `placed`, in name order.
fn rest_names(nodes: &StrMap<Node>, placed: &Vec<String>) -> (r: Vec<String>)
    requires
        nodes.wf(),
    ensures
        strs(r@) == rest_upto(*nodes, strs(placed@), nodes.keys().len() as int),
{
    let mut out: Vec<String> = Vec::new();
    let mut i: usize = 0;
    while i < nodes.len()
        invariant
            i <= nodes.keys().len(),
            strs(out@) == rest_upto(*nodes, strs(placed@), i as int),
        decreases nodes.keys().len() - i,
    {
        let name = nodes.key_at(i);
        let ghost before = strs(out@);
        if !holds(placed, name.as_str()) {
            out.push(owned(name.as_str()));
            assert(strs(out@) =~= before.push(name@));
        }
        i = i + 1;
    }
    out
}

/// Topologically sort nodes by `depends_on` (Kahn's algorithm).
///
/// Returns node names in dependency order: nodes with no dependencies
/// first, then nodes whose dependencies have all been visited, etc. Nodes
/// within the same level are sorted by name. Nodes that wait on a cycle or
/// a missing node are appended in name order.
pub fn topo_sort_nodes(nodes: &StrMap<Node>) -> (r: Vec<String>)
    requires
        nodes.wf(),
    ensures
        strs(r@) == start_sequence(*nodes),
        strs(r@).no_duplicates(),
        strs(r@).to_set() == nodes.keys().to_set(),
        exists|k: int| start_order(*nodes, strs(r@), k),
{
    proof { lemma_start_sequence(*nodes); }
    let n = nodes.len();
    let mut placed: Vec<String> = Vec::new();
    assert(strs(placed@) =~= levels(*nodes, 0));
    let mut k: usize = 0;
    while k < n
        invariant
            k <= n,
            n == nodes.keys().len(),
            nodes.wf(),
            strs(placed@) == levels(*nodes, k as nat),
        decreases n - k,
    {
        let mut level = ready_names(nodes, &placed);
        let ghost a = strs(placed@);
        let ghost b = strs(level@);
        placed.append(&mut level);
        assert(strs(placed@) =~= a + b);
        k = k + 1;
    }
    let mut rest = rest_names(nodes, &placed);
    let ghost a = strs(placed@);
    let ghost b = strs(rest@);
    placed.append(&mut rest);
    assert(strs(placed@) =~= a + b);
    placed
}

/// A duplicate-free sequence of keys is no longer than the keys.
pub(crate) proof fn lemma_no_dup_subset_len(s: Seq<Seq<char>>, keys: Seq<Seq<char>>)
    requires
        s.no_duplicates(),
        forall|m: int| 0 <= m < s.len() ==> keys.contains(#[trigger] s[m]),
    ensures
        s.len() <= keys.len(),
{
    s.unique_seq_to_set();
    assert(s.to_set().subset_of(keys.to_set()));
    vstd::set_lib::lemma_len_subset(s.to_set(), keys.to_set());
    keys.lemma_cardinality_of_set();
}

} // verus!
