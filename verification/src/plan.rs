//! Plans: ordered lists of ops, sorted by stage, and the difference
//! between the plan of a running lab and the plan of a desired topology.
use vstd::prelude::*;
use crate::op::{Op, OpView, Stage, ApplyReport, stage_of, stage_rank, stage_name, key_of, inverse_of, is_removal_op, description, STAGE_COUNT};
use crate::text::{str_eq, push_str};

verus! {

/// An ordered list of ops: the whole deploy (or the difference between two
/// deploys) as data.
#[derive(Debug, Clone, Default)]
pub struct Plan {
    pub ops: Vec<Op>,
}

/// The views of a list of ops.
pub open spec fn views(ops: Seq<Op>) -> Seq<OpView> {
    ops.map_values(|o: Op| o@)
}

/// The rank of an op's stage.
pub open spec fn rank_of(o: OpView) -> int {
    stage_rank(stage_of(o))
}

/// The ops of stage rank `k`, in order.
pub open spec fn of_rank(s: Seq<OpView>, k: int) -> Seq<OpView>
    decreases s.len(),
{
    if s.len() == 0 {
        Seq::empty()
    } else if rank_of(s.last()) == k {
        of_rank(s.drop_last(), k).push(s.last())
    } else {
        of_rank(s.drop_last(), k)
    }
}

/// The ops of the first `n` stages, stage by stage, each stage in order.
pub open spec fn by_stage_upto(s: Seq<OpView>, n: int) -> Seq<OpView>
    decreases n,
{
    if n <= 0 {
        Seq::empty()
    } else {
        by_stage_upto(s, n - 1) + of_rank(s, n - 1)
    }
}

/// The ops sorted by stage; ops of one stage keep their order.
pub open spec fn by_stage(s: Seq<OpView>) -> Seq<OpView> {
    by_stage_upto(s, STAGE_COUNT as int)
}

/// The ops of the first `n` stages, last of them first, each in order.
pub open spec fn by_stage_desc_upto(s: Seq<OpView>, n: int) -> Seq<OpView>
    decreases n,
{
    if n <= 0 {
        Seq::empty()
    } else {
        of_rank(s, n - 1) + by_stage_desc_upto(s, n - 1)
    }
}

/// The ops sorted by stage, last stage first; ops of one stage keep their
/// order.
pub open spec fn by_stage_desc(s: Seq<OpView>) -> Seq<OpView> {
    by_stage_desc_upto(s, STAGE_COUNT as int)
}

/// Some op of `s` has key `k`.
pub open spec fn has_key(s: Seq<OpView>, k: Seq<char>) -> bool {
    exists|i: int| 0 <= i < s.len() && key_of(#[trigger] s[i]) == k
}

/// The last op of `s` with key `k`.
pub open spec fn last_keyed(s: Seq<OpView>, k: Seq<char>) -> Option<OpView>
    decreases s.len(),
{
    if s.len() == 0 {
        None
    } else if key_of(s.last()) == k {
        Some(s.last())
    } else {
        last_keyed(s.drop_last(), k)
    }
}

/// The inverses of the current ops whose key the desired ops lack.
pub open spec fn removal_seeds(cur: Seq<OpView>, des: Seq<OpView>) -> Seq<OpView>
    decreases cur.len(),
{
    if cur.len() == 0 {
        Seq::empty()
    } else {
        let rest = removal_seeds(cur.drop_last(), des);
        if !has_key(des, key_of(cur.last())) && inverse_of(cur.last()) is Some {
            rest.push(inverse_of(cur.last())->0)
        } else {
            rest
        }
    }
}

/// The node whose namespace a removal lives in, for removals that go with
/// the namespace.
pub open spec fn bound_node(o: OpView) -> Option<Seq<char>> {
    match o {
        OpView::DeleteLink { node, .. } | OpView::DelRoute { node, .. } | OpView::ClearQdisc { node, .. }
        | OpView::RemoveRateLimit { node, .. } | OpView::KillNodeProcesses { node } => Some(node),
        _ => None,
    }
}

/// The op deletes node `n`'s namespace or container.
pub open spec fn kills(o: OpView, n: Seq<char>) -> bool {
    ||| o matches OpView::DeleteNamespace { node, .. } && node == n
    ||| o matches OpView::RemoveContainer { node, .. } && node == n
}

/// Node `n` goes away with one of the removals `rs`.
pub open spec fn dying(rs: Seq<OpView>, n: Seq<char>) -> bool {
    exists|i: int| 0 <= i < rs.len() && kills(#[trigger] rs[i], n)
}

/// The removal is implied by another one: its node goes away.
pub open spec fn implied(rs: Seq<OpView>, o: OpView) -> bool {
    bound_node(o) matches Some(n) && dying(rs, n)
}

/// The ops of `s` that the removals `rs` do not imply.
pub open spec fn spared(rs: Seq<OpView>, s: Seq<OpView>) -> Seq<OpView>
    decreases s.len(),
{
    if s.len() == 0 {
        Seq::empty()
    } else if implied(rs, s.last()) {
        spared(rs, s.drop_last())
    } else {
        spared(rs, s.drop_last()).push(s.last())
    }
}

/// What two removals are told apart by: the key followed by the stage name.
pub open spec fn ident(o: OpView) -> Seq<char> {
    key_of(o) + stage_name(stage_of(o))
}

/// Some op of `s` has the identity `x`.
pub open spec fn has_ident(s: Seq<OpView>, x: Seq<char>) -> bool {
    exists|i: int| 0 <= i < s.len() && ident(#[trigger] s[i]) == x
}

/// The first op of each identity, in order.
pub open spec fn first_of_each(s: Seq<OpView>) -> Seq<OpView>
    decreases s.len(),
{
    if s.len() == 0 {
        Seq::empty()
    } else if has_ident(s.drop_last(), ident(s.last())) {
        first_of_each(s.drop_last())
    } else {
        first_of_each(s.drop_last()).push(s.last())
    }
}

/// Ops applied again whenever their node is on both sides: they reconcile
/// idempotently.
pub open spec fn reconciles(o: OpView) -> bool {
    o is Stack || o is LinksUp || o is NetworkImpairments || o is DnsInject || o is DnsNetnsEtc
}

/// Ops that only run for new nodes.
pub open spec fn one_shot(o: OpView) -> bool {
    o is Exec || o is Healthcheck || o is StartupDelay || o is WifiDaemon
}

/// What a desired op contributes: the inverse of the op it replaces (if
/// any), and itself if it is to run.
pub open spec fn change_of(cur: Seq<OpView>, o: OpView) -> (Seq<OpView>, Seq<OpView>) {
    match last_keyed(cur, key_of(o)) {
        None => (Seq::empty(), seq![o]),
        Some(e) => if reconciles(o) {
            (Seq::empty(), seq![o])
        } else if one_shot(o) {
            (Seq::empty(), Seq::empty())
        } else if e != o {
            (match inverse_of(e) { Some(i) => seq![i], None => Seq::empty() }, seq![o])
        } else {
            (Seq::empty(), Seq::empty())
        },
    }
}

/// The inverses of the current ops that desired ops replace.
pub open spec fn replaced(cur: Seq<OpView>, des: Seq<OpView>) -> Seq<OpView>
    decreases des.len(),
{
    if des.len() == 0 {
        Seq::empty()
    } else {
        replaced(cur, des.drop_last()) + change_of(cur, des.last()).0
    }
}

/// The desired ops that run: new, reconciling, or changed.
pub open spec fn changed(cur: Seq<OpView>, des: Seq<OpView>) -> Seq<OpView>
    decreases des.len(),
{
    if des.len() == 0 {
        Seq::empty()
    } else {
        changed(cur, des.drop_last()) + change_of(cur, des.last()).1
    }
}

/// The removals of `desired − current`: inverses of what leaves, without
/// those their namespace takes along, last stage first, each identity once.
pub open spec fn removals(cur: Seq<OpView>, des: Seq<OpView>) -> Seq<OpView> {
    let seeds = removal_seeds(cur, des);
    first_of_each(by_stage_desc(spared(seeds, seeds)))
}

/// The removal ops of `desired − current`: the removals and the inverses
/// of replaced ops together, last stage first (within a stage, removals
/// ahead of replaced inverses, each in order).
pub open spec fn removal_part(cur: Seq<OpView>, des: Seq<OpView>) -> Seq<OpView> {
    by_stage_desc(removals(cur, des) + replaced(cur, des))
}

/// `desired − current` as an executable plan: the removal ops in reverse
/// stage order, then the ops that run, by stage.
pub open spec fn plan_diff(cur: Seq<OpView>, des: Seq<OpView>) -> Seq<OpView> {
    removal_part(cur, des) + by_stage(changed(cur, des))
}


// ─── Sorting by stage ───────────────────────────────────────────────

proof fn lemma_views_take(v: Seq<Op>, i: int)
    requires
        0 <= i < v.len(),
    ensures
        views(v).take(i + 1).drop_last() == views(v).take(i),
        views(v).take(i + 1).last() == v[i]@,
        views(v).take(i + 1).len() == i + 1,
{
    assert(views(v).take(i + 1).drop_last() =~= views(v).take(i));
}

/// Appends copies of the ops of `v` of stage rank `k`, in order.
fn push_of_rank(v: &Vec<Op>, k: u8, out: &mut Vec<Op>)
    ensures
        views(final(out)@) == views(old(out)@) + of_rank(views(v@), k as int),
{
    let ghost start = views(out@);
    let mut i: usize = 0;
    while i < v.len()
        invariant
            i <= v@.len(),
            views(out@) == start + of_rank(views(v@).take(i as int), k as int),
        decreases v@.len() - i,
    {
        let ghost before = out@;
        proof { lemma_views_take(v@, i as int); }
        if v[i].stage().rank() == k {
            let c = v[i].copy();
            out.push(c);
            assert(views(out@) =~= views(before).push(c@));
        }
        i = i + 1;
    }
    assert(views(v@).take(v@.len() as int) =~= views(v@));
}

/// Copies of the ops, sorted by stage (see [`by_stage`]).
fn sorted_by_stage(v: &Vec<Op>) -> (r: Vec<Op>)
    ensures
        views(r@) == by_stage(views(v@)),
{
    let mut out: Vec<Op> = Vec::new();
    let mut k: u8 = 0;
    assert(views(out@) =~= Seq::<OpView>::empty());
    while k < STAGE_COUNT
        invariant
            k <= STAGE_COUNT,
            views(out@) == by_stage_upto(views(v@), k as int),
        decreases STAGE_COUNT - k,
    {
        push_of_rank(v, k, &mut out);
        k = k + 1;
    }
    out
}

/// Copies of the ops, sorted by stage, last stage first (see
/// [`by_stage_desc`]).
fn sorted_by_stage_desc(v: &Vec<Op>) -> (r: Vec<Op>)
    ensures
        views(r@) == by_stage_desc(views(v@)),
{
    let mut out: Vec<Op> = Vec::new();
    let mut k: u8 = STAGE_COUNT;
    assert(views(out@) =~= Seq::<OpView>::empty());
    while k > 0
        invariant
            k <= STAGE_COUNT,
            views(out@) + by_stage_desc_upto(views(v@), k as int) == by_stage_desc(views(v@)),
        decreases k,
    {
        let ghost before = views(out@);
        push_of_rank(v, k - 1, &mut out);
        proof {
            let s = views(v@);
            assert(by_stage_desc_upto(s, k as int) == of_rank(s, k - 1) + by_stage_desc_upto(s, k - 1));
            assert(before + (of_rank(s, k - 1) + by_stage_desc_upto(s, k - 1))
                =~= (before + of_rank(s, k - 1)) + by_stage_desc_upto(s, k - 1));
        }
        k = k - 1;
    }
    assert(views(out@) + by_stage_desc_upto(views(v@), 0) =~= views(out@));
    out
}

impl Plan {
    /// The plan sorted by stage; ops of one stage keep the planner's order.
    pub fn sorted(self) -> (r: Self)
        ensures
            views(r.ops@) == by_stage(views(self.ops@)),
    {
        Plan { ops: sorted_by_stage(&self.ops) }
    }

    /// Copies of the ops of one stage, in order.
    pub fn stage(&self, stage: Stage) -> (r: Vec<Op>)
        ensures
            views(r@) == of_rank(views(self.ops@), stage_rank(stage)),
    {
        let mut out: Vec<Op> = Vec::new();
        assert(views(out@) =~= Seq::<OpView>::empty());
        push_of_rank(&self.ops, stage.rank(), &mut out);
        assert(views(out@) =~= of_rank(views(self.ops@), stage_rank(stage)));
        out
    }
}


// ─── Keys and lookups ───────────────────────────────────────────────

/// The keys of the ops, in order.
fn op_keys(v: &Vec<Op>) -> (r: Vec<String>)
    ensures
        r@.len() == v@.len(),
        forall|i: int| 0 <= i < v@.len() ==> #[trigger] r@[i]@ == key_of(v@[i]@),
{
    let mut r: Vec<String> = Vec::new();
    let mut i: usize = 0;
    while i < v.len()
        invariant
            i <= v@.len(),
            r@.len() == i,
            forall|j: int| 0 <= j < i ==> #[trigger] r@[j]@ == key_of(v@[j]@),
        decreases v@.len() - i,
    {
        r.push(v[i].key());
        i = i + 1;
    }
    r
}

/// Whether some op, with keys `keys`, has key `k`.
fn keyed(v: &Vec<Op>, keys: &Vec<String>, k: &str) -> (r: bool)
    requires
        keys@.len() == v@.len(),
        forall|i: int| 0 <= i < v@.len() ==> #[trigger] keys@[i]@ == key_of(v@[i]@),
    ensures
        r == has_key(views(v@), k@),
{
    let mut i: usize = 0;
    while i < keys.len()
        invariant
            i <= keys@.len(),
            keys@.len() == v@.len(),
            forall|i: int| 0 <= i < v@.len() ==> #[trigger] keys@[i]@ == key_of(v@[i]@),
            forall|j: int| 0 <= j < i ==> key_of(#[trigger] views(v@)[j]) != k@,
        decreases keys@.len() - i,
    {
        if str_eq(keys[i].as_str(), k) {
            assert(key_of(views(v@)[i as int]) == k@);
            return true;
        }
        assert(key_of(views(v@)[i as int]) != k@);
        i = i + 1;
    }
    false
}

/// The position of the last op with key `k`.
fn last_index(v: &Vec<Op>, keys: &Vec<String>, k: &str) -> (r: Option<usize>)
    requires
        keys@.len() == v@.len(),
        forall|i: int| 0 <= i < v@.len() ==> #[trigger] keys@[i]@ == key_of(v@[i]@),
    ensures
        match r {
            Some(i) => i < v@.len() && last_keyed(views(v@), k@) == Some(v@[i as int]@),
            None => last_keyed(views(v@), k@) is None,
        },
{
    let mut found: Option<usize> = None;
    let mut i: usize = 0;
    while i < keys.len()
        invariant
            i <= keys@.len(),
            keys@.len() == v@.len(),
            forall|i: int| 0 <= i < v@.len() ==> #[trigger] keys@[i]@ == key_of(v@[i]@),
            match found {
                Some(j) => j < i && last_keyed(views(v@).take(i as int), k@) == Some(v@[j as int]@),
                None => last_keyed(views(v@).take(i as int), k@) is None,
            },
        decreases keys@.len() - i,
    {
        proof { lemma_views_take(v@, i as int); }
        if str_eq(keys[i].as_str(), k) {
            found = Some(i);
        }
        i = i + 1;
    }
    assert(views(v@).take(v@.len() as int) =~= views(v@));
    found
}

// ─── Removals ───────────────────────────────────────────────────────

/// The inverses of the current ops whose key the desired ops lack.
fn seeds_of(cur: &Vec<Op>, des: &Vec<Op>, des_keys: &Vec<String>) -> (r: Vec<Op>)
    requires
        des_keys@.len() == des@.len(),
        forall|i: int| 0 <= i < des@.len() ==> #[trigger] des_keys@[i]@ == key_of(des@[i]@),
    ensures
        views(r@) == removal_seeds(views(cur@), views(des@)),
{
    let mut r: Vec<Op> = Vec::new();
    let mut i: usize = 0;
    assert(views(r@) =~= Seq::<OpView>::empty());
    while i < cur.len()
        invariant
            i <= cur@.len(),
            des_keys@.len() == des@.len(),
            forall|i: int| 0 <= i < des@.len() ==> #[trigger] des_keys@[i]@ == key_of(des@[i]@),
            views(r@) == removal_seeds(views(cur@).take(i as int), views(des@)),
        decreases cur@.len() - i,
    {
        proof { lemma_views_take(cur@, i as int); }
        let k = cur[i].key();
        if !keyed(des, des_keys, k.as_str()) {
            match cur[i].inverse() {
                Some(inv) => {
                    let ghost before = r@;
                    r.push(inv);
                    assert(views(r@) =~= views(before).push(inv@));
                },
                None => {},
            }
        }
        i = i + 1;
    }
    assert(views(cur@).take(cur@.len() as int) =~= views(cur@));
    r
}

/// The node a removal goes along with, if it is bound to one.
fn bound_node_of(o: &Op) -> (r: Option<&String>)
    ensures
        match bound_node(o@) {
            Some(n) => r matches Some(s) && s@ == n,
            None => r is None,
        },
{
    match o {
        Op::DeleteLink { node, .. } | Op::DelRoute { node, .. } | Op::ClearQdisc { node, .. }
        | Op::RemoveRateLimit { node, .. } | Op::KillNodeProcesses { node } => Some(node),
        _ => None,
    }
}

/// Whether the op deletes node `n`'s namespace or container.
fn op_kills(o: &Op, n: &str) -> (r: bool)
    ensures
        r == kills(o@, n@),
{
    match o {
        Op::DeleteNamespace { node, .. } | Op::RemoveContainer { node, .. } => str_eq(node.as_str(), n),
        _ => false,
    }
}

/// Whether node `n` goes away with one of the removals.
fn node_dies(rs: &Vec<Op>, n: &str) -> (r: bool)
    ensures
        r == dying(views(rs@), n@),
{
    let mut i: usize = 0;
    while i < rs.len()
        invariant
            i <= rs@.len(),
            forall|j: int| 0 <= j < i ==> !kills(#[trigger] views(rs@)[j], n@),
        decreases rs@.len() - i,
    {
        if op_kills(&rs[i], n) {
            assert(kills(views(rs@)[i as int], n@));
            return true;
        }
        assert(!kills(views(rs@)[i as int], n@));
        i = i + 1;
    }
    false
}

/// Copies of the removals that no other removal implies.
fn spared_of(rs: &Vec<Op>) -> (r: Vec<Op>)
    ensures
        views(r@) == spared(views(rs@), views(rs@)),
{
    let mut r: Vec<Op> = Vec::new();
    let mut i: usize = 0;
    assert(views(r@) =~= Seq::<OpView>::empty());
    while i < rs.len()
        invariant
            i <= rs@.len(),
            views(r@) == spared(views(rs@), views(rs@).take(i as int)),
        decreases rs@.len() - i,
    {
        proof { lemma_views_take(rs@, i as int); }
        let skip = match bound_node_of(&rs[i]) {
            Some(n) => node_dies(rs, n.as_str()),
            None => false,
        };
        if !skip {
            let ghost before = r@;
            let c = rs[i].copy();
            r.push(c);
            assert(views(r@) =~= views(before).push(c@));
        }
        i = i + 1;
    }
    assert(views(rs@).take(rs@.len() as int) =~= views(rs@));
    r
}

/// The identity of an op (see [`ident`]).
fn ident_of(o: &Op) -> (r: String)
    ensures
        r@ == ident(o@),
{
    let mut s = o.key();
    push_str(&mut s, o.stage().name());
    s
}

/// Copies of the first op of each identity, in order.
fn first_of_each_of(v: &Vec<Op>) -> (r: Vec<Op>)
    ensures
        views(r@) == first_of_each(views(v@)),
{
    let mut r: Vec<Op> = Vec::new();
    let mut seen: Vec<String> = Vec::new();
    let mut i: usize = 0;
    assert(views(r@) =~= Seq::<OpView>::empty());
    while i < v.len()
        invariant
            i <= v@.len(),
            seen@.len() == i,
            forall|j: int| 0 <= j < i ==> #[trigger] seen@[j]@ == ident(v@[j]@),
            views(r@) == first_of_each(views(v@).take(i as int)),
        decreases v@.len() - i,
    {
        proof { lemma_views_take(v@, i as int); }
        let id = ident_of(&v[i]);
        let mut dup = false;
        let mut j: usize = 0;
        while j < i
            invariant
                j <= i,
                i < v@.len(),
                seen@.len() == i,
                forall|j: int| 0 <= j < i ==> #[trigger] seen@[j]@ == ident(v@[j]@),
                dup == has_ident(views(v@).take(i as int).take(j as int), id@),
            decreases i - j,
        {
            proof {
                let p = views(v@).take(i as int);
                assert(p.take(j + 1).drop_last() =~= p.take(j as int));
                assert(p.take(j + 1).last() == v@[j as int]@);
                if has_ident(p.take(j + 1), id@) && !has_ident(p.take(j as int), id@) {
                    let w = choose|w: int| 0 <= w < p.take(j + 1).len() && ident(#[trigger] p.take(j + 1)[w]) == id@;
                    assert(w == j);
                }
                if has_ident(p.take(j as int), id@) {
                    let w = choose|w: int| 0 <= w < p.take(j as int).len() && ident(#[trigger] p.take(j as int)[w]) == id@;
                    assert(p.take(j + 1)[w] == p.take(j as int)[w]);
                }
            }
            if str_eq(seen[j].as_str(), id.as_str()) {
                assert(ident(views(v@).take(i as int).take(j + 1)[j as int]) == id@);
                dup = true;
            }
            j = j + 1;
        }
        assert(views(v@).take(i as int).take(i as int) =~= views(v@).take(i as int));
        if !dup {
            let ghost before = r@;
            let c = v[i].copy();
            r.push(c);
            assert(views(r@) =~= views(before).push(c@));
        }
        seen.push(id);
        i = i + 1;
    }
    assert(views(v@).take(v@.len() as int) =~= views(v@));
    r
}


// ─── Changes ────────────────────────────────────────────────────────

/// Whether the op reconciles idempotently (see [`reconciles`]).
fn op_reconciles(o: &Op) -> (r: bool)
    ensures
        r == reconciles(o@),
{
    match o {
        Op::Stack { .. } | Op::LinksUp { .. } | Op::NetworkImpairments | Op::DnsInject { .. }
        | Op::DnsNetnsEtc { .. } => true,
        _ => false,
    }
}

/// Whether the op only runs for new nodes (see [`one_shot`]).
fn op_one_shot(o: &Op) -> (r: bool)
    ensures
        r == one_shot(o@),
{
    match o {
        Op::Exec { .. } | Op::Healthcheck { .. } | Op::StartupDelay { .. } | Op::WifiDaemon { .. } => true,
        _ => false,
    }
}

/// The inverses of replaced ops and the desired ops that run.
fn changes_of(cur: &Vec<Op>, cur_keys: &Vec<String>, des: &Vec<Op>) -> (r: (Vec<Op>, Vec<Op>))
    requires
        cur_keys@.len() == cur@.len(),
        forall|i: int| 0 <= i < cur@.len() ==> #[trigger] cur_keys@[i]@ == key_of(cur@[i]@),
    ensures
        views(r.0@) == replaced(views(cur@), views(des@)),
        views(r.1@) == changed(views(cur@), views(des@)),
{
    let mut extra: Vec<Op> = Vec::new();
    let mut run: Vec<Op> = Vec::new();
    let mut i: usize = 0;
    assert(views(extra@) =~= Seq::<OpView>::empty());
    assert(views(run@) =~= Seq::<OpView>::empty());
    while i < des.len()
        invariant
            i <= des@.len(),
            cur_keys@.len() == cur@.len(),
            forall|i: int| 0 <= i < cur@.len() ==> #[trigger] cur_keys@[i]@ == key_of(cur@[i]@),
            views(extra@) == replaced(views(cur@), views(des@).take(i as int)),
            views(run@) == changed(views(cur@), views(des@).take(i as int)),
        decreases des@.len() - i,
    {
        proof { lemma_views_take(des@, i as int); }
        let ghost e0 = views(extra@);
        let ghost r0 = views(run@);
        let op = &des[i];
        let k = op.key();
        match last_index(cur, cur_keys, k.as_str()) {
            None => {
                let c = op.copy();
                run.push(c);
                assert(views(run@) =~= r0 + seq![op@]);
                assert(views(extra@) =~= e0 + Seq::<OpView>::empty());
            },
            Some(j) => {
                if op_reconciles(op) {
                    let c = op.copy();
                    run.push(c);
                    assert(views(run@) =~= r0 + seq![op@]);
                    assert(views(extra@) =~= e0 + Seq::<OpView>::empty());
                } else if op_one_shot(op) {
                    assert(views(run@) =~= r0 + Seq::<OpView>::empty());
                    assert(views(extra@) =~= e0 + Seq::<OpView>::empty());
                } else if !cur[j].same(op) {
                    match cur[j].inverse() {
                        Some(inv) => {
                            extra.push(inv);
                            assert(views(extra@) =~= e0 + seq![inv@]);
                        },
                        None => {
                            assert(views(extra@) =~= e0 + Seq::<OpView>::empty());
                        },
                    }
                    let c = op.copy();
                    run.push(c);
                    assert(views(run@) =~= r0 + seq![op@]);
                } else {
                    assert(views(run@) =~= r0 + Seq::<OpView>::empty());
                    assert(views(extra@) =~= e0 + Seq::<OpView>::empty());
                }
            },
        }
        i = i + 1;
    }
    assert(views(des@).take(des@.len() as int) =~= views(des@));
    (extra, run)
}

impl Plan {
    /// `desired − current` as an executable plan: removals first, in
    /// reverse stage order (inverses of the ops whose key `desired` lacks,
    /// without those a deleted namespace takes along, each once, and the
    /// inverses of ops whose payload changed), then every op that is new,
    /// reconciling, or changed, in stage order. One-shot process ops run
    /// for new nodes only.
    pub fn diff(current: &Plan, desired: &Plan) -> (r: Plan)
        ensures
            views(r.ops@) == plan_diff(views(current.ops@), views(desired.ops@)),
    {
        let cur_keys = op_keys(&current.ops);
        let des_keys = op_keys(&desired.ops);
        let seeds = seeds_of(&current.ops, &desired.ops, &des_keys);
        let kept = spared_of(&seeds);
        let ordered = sorted_by_stage_desc(&kept);
        let mut gone = first_of_each_of(&ordered);
        let (mut extra, run) = changes_of(&current.ops, &cur_keys, &desired.ops);
        let ghost a = views(gone@);
        let ghost b = views(extra@);
        gone.append(&mut extra);
        assert(views(gone@) =~= a + b);
        let mut ops = sorted_by_stage_desc(&gone);
        let mut sorted_run = sorted_by_stage(&run);
        let ghost d = views(ops@);
        let ghost c = views(sorted_run@);
        ops.append(&mut sorted_run);
        assert(views(ops@) =~= d + c);
        Plan { ops }
    }
}


// ─── Laws ───────────────────────────────────────────────────────────

/// The ops of `s` that reconcile, in order.
pub open spec fn reconciling(s: Seq<OpView>) -> Seq<OpView>
    decreases s.len(),
{
    if s.len() == 0 {
        Seq::empty()
    } else if reconciles(s.last()) {
        reconciling(s.drop_last()).push(s.last())
    } else {
        reconciling(s.drop_last())
    }
}

/// No two ops of `s` have the same key.
pub open spec fn keys_unique(s: Seq<OpView>) -> bool {
    forall|i: int, j: int| 0 <= i < j < s.len() ==> key_of(#[trigger] s[i]) != key_of(#[trigger] s[j])
}

proof fn lemma_of_rank_empty(k: int)
    ensures
        of_rank(Seq::<OpView>::empty(), k) == Seq::<OpView>::empty(),
{
}

proof fn lemma_by_stage_desc_empty(n: int)
    ensures
        by_stage_desc_upto(Seq::<OpView>::empty(), n) == Seq::<OpView>::empty(),
    decreases n,
{
    if n > 0 {
        lemma_by_stage_desc_empty(n - 1);
        lemma_of_rank_empty(n - 1);
        assert(by_stage_desc_upto(Seq::<OpView>::empty(), n)
            =~= of_rank(Seq::<OpView>::empty(), n - 1) + by_stage_desc_upto(Seq::<OpView>::empty(), n - 1));
    }
}

proof fn lemma_changes_from_nothing(des: Seq<OpView>)
    ensures
        replaced(Seq::empty(), des) == Seq::<OpView>::empty(),
        changed(Seq::empty(), des) == des,
    decreases des.len(),
{
    if des.len() > 0 {
        lemma_changes_from_nothing(des.drop_last());
        assert(changed(Seq::empty(), des) =~= des.drop_last() + seq![des.last()]);
        assert(replaced(Seq::empty(), des) =~= Seq::<OpView>::empty() + Seq::<OpView>::empty());
    }
}

/// Diffing a desired plan against an empty one gives the desired plan
/// sorted by stage: a first deploy runs every op.
pub proof fn lemma_diff_from_empty(current: Plan, desired: Plan)
    requires
        current.ops@.len() == 0,
    ensures
        plan_diff(views(current.ops@), views(desired.ops@)) == by_stage(views(desired.ops@)),
{
    let cur = views(current.ops@);
    let des = views(desired.ops@);
    assert(cur =~= Seq::<OpView>::empty());
    lemma_changes_from_nothing(des);
    assert(removal_seeds(cur, des) == Seq::<OpView>::empty());
    assert(spared(Seq::<OpView>::empty(), Seq::<OpView>::empty()) == Seq::<OpView>::empty());
    lemma_by_stage_desc_empty(STAGE_COUNT as int);
    assert(first_of_each(Seq::<OpView>::empty()) == Seq::<OpView>::empty());
    assert(removals(cur, des) + replaced(cur, des) =~= Seq::<OpView>::empty());
    assert(plan_diff(cur, des) =~= by_stage(des));
}

proof fn lemma_last_keyed_own(s: Seq<OpView>, i: int)
    requires
        keys_unique(s),
        0 <= i < s.len(),
    ensures
        last_keyed(s, key_of(s[i])) == Some(s[i]),
    decreases s.len(),
{
    if i < s.len() - 1 {
        assert(key_of(s[i]) != key_of(s[s.len() - 1]));
        assert(keys_unique(s.drop_last()));
        assert(s.drop_last()[i] == s[i]);
        lemma_last_keyed_own(s.drop_last(), i);
    }
}

proof fn lemma_no_seeds(cur: Seq<OpView>, des: Seq<OpView>)
    requires
        forall|i: int| 0 <= i < cur.len() ==> has_key(des, key_of(#[trigger] cur[i])),
    ensures
        removal_seeds(cur, des) == Seq::<OpView>::empty(),
    decreases cur.len(),
{
    if cur.len() > 0 {
        assert(has_key(des, key_of(cur[cur.len() - 1])));
        assert forall|i: int| 0 <= i < cur.drop_last().len() implies has_key(des, key_of(#[trigger] cur.drop_last()[i])) by {
            assert(cur.drop_last()[i] == cur[i]);
        }
        lemma_no_seeds(cur.drop_last(), des);
    }
}

proof fn lemma_self_changes(s: Seq<OpView>, n: int)
    requires
        keys_unique(s),
        0 <= n <= s.len(),
    ensures
        replaced(s, s.take(n)) == Seq::<OpView>::empty(),
        changed(s, s.take(n)) == reconciling(s.take(n)),
    decreases n,
{
    if n > 0 {
        lemma_self_changes(s, n - 1);
        let p = s.take(n);
        assert(p.drop_last() =~= s.take(n - 1));
        assert(p.last() == s[n - 1]);
        lemma_last_keyed_own(s, n - 1);
        let o = s[n - 1];
        if reconciles(o) {
            assert(changed(s, p) =~= reconciling(p));
        } else {
            assert(changed(s, p) =~= changed(s, s.take(n - 1)));
        }
        assert(replaced(s, p) =~= Seq::<OpView>::empty());
    }
}

/// Diffing a plan against itself (no two ops sharing a key) leaves only
/// the reconciling ops, by stage: an unchanged lab removes, re-creates and
/// re-runs nothing.
pub proof fn lemma_diff_self(plan: Plan)
    requires
        keys_unique(views(plan.ops@)),
    ensures
        plan_diff(views(plan.ops@), views(plan.ops@)) == by_stage(reconciling(views(plan.ops@))),
{
    let s = views(plan.ops@);
    assert forall|i: int| 0 <= i < s.len() implies has_key(s, key_of(#[trigger] s[i])) by {
    }
    lemma_no_seeds(s, s);
    lemma_by_stage_desc_empty(STAGE_COUNT as int);
    assert(spared(Seq::<OpView>::empty(), Seq::<OpView>::empty()) == Seq::<OpView>::empty());
    assert(first_of_each(Seq::<OpView>::empty()) == Seq::<OpView>::empty());
    lemma_self_changes(s, s.len() as int);
    assert(s.take(s.len() as int) =~= s);
    assert(removals(s, s) + replaced(s, s) =~= Seq::<OpView>::empty());
    assert(plan_diff(s, s) =~= by_stage(reconciling(s)));
}


/// Every op of `s` is a removal op.
pub open spec fn all_removals(s: Seq<OpView>) -> bool {
    forall|i: int| 0 <= i < s.len() ==> is_removal_op(#[trigger] s[i])
}

proof fn lemma_seeds_remove(cur: Seq<OpView>, des: Seq<OpView>)
    ensures
        all_removals(removal_seeds(cur, des)),
    decreases cur.len(),
{
    if cur.len() > 0 {
        lemma_seeds_remove(cur.drop_last(), des);
    }
}

proof fn lemma_spared_remove(rs: Seq<OpView>, s: Seq<OpView>)
    requires
        all_removals(s),
    ensures
        all_removals(spared(rs, s)),
    decreases s.len(),
{
    if s.len() > 0 {
        assert(is_removal_op(s[s.len() - 1]));
        assert(all_removals(s.drop_last())) by {
            assert forall|i: int| 0 <= i < s.drop_last().len() implies is_removal_op(#[trigger] s.drop_last()[i]) by {
                assert(s.drop_last()[i] == s[i]);
            }
        }
        lemma_spared_remove(rs, s.drop_last());
    }
}

proof fn lemma_of_rank_remove(s: Seq<OpView>, k: int)
    requires
        all_removals(s),
    ensures
        all_removals(of_rank(s, k)),
    decreases s.len(),
{
    if s.len() > 0 {
        assert(is_removal_op(s[s.len() - 1]));
        assert(all_removals(s.drop_last())) by {
            assert forall|i: int| 0 <= i < s.drop_last().len() implies is_removal_op(#[trigger] s.drop_last()[i]) by {
                assert(s.drop_last()[i] == s[i]);
            }
        }
        lemma_of_rank_remove(s.drop_last(), k);
    }
}

proof fn lemma_desc_remove(s: Seq<OpView>, n: int)
    requires
        all_removals(s),
    ensures
        all_removals(by_stage_desc_upto(s, n)),
    decreases n,
{
    if n > 0 {
        lemma_of_rank_remove(s, n - 1);
        lemma_desc_remove(s, n - 1);
        let a = of_rank(s, n - 1);
        let b = by_stage_desc_upto(s, n - 1);
        assert forall|i: int| 0 <= i < (a + b).len() implies is_removal_op(#[trigger] (a + b)[i]) by {
            if i < a.len() {
                assert((a + b)[i] == a[i]);
            } else {
                assert((a + b)[i] == b[i - a.len()]);
            }
        }
    }
}

proof fn lemma_first_remove(s: Seq<OpView>)
    requires
        all_removals(s),
    ensures
        all_removals(first_of_each(s)),
    decreases s.len(),
{
    if s.len() > 0 {
        assert(is_removal_op(s[s.len() - 1]));
        assert(all_removals(s.drop_last())) by {
            assert forall|i: int| 0 <= i < s.drop_last().len() implies is_removal_op(#[trigger] s.drop_last()[i]) by {
                assert(s.drop_last()[i] == s[i]);
            }
        }
        lemma_first_remove(s.drop_last());
    }
}

proof fn lemma_replaced_remove(cur: Seq<OpView>, des: Seq<OpView>)
    ensures
        all_removals(replaced(cur, des)),
    decreases des.len(),
{
    if des.len() > 0 {
        lemma_replaced_remove(cur, des.drop_last());
        let a = replaced(cur, des.drop_last());
        let b = change_of(cur, des.last()).0;
        assert(all_removals(b));
        assert forall|i: int| 0 <= i < (a + b).len() implies is_removal_op(#[trigger] (a + b)[i]) by {
            if i < a.len() {
                assert((a + b)[i] == a[i]);
            } else {
                assert((a + b)[i] == b[i - a.len()]);
            }
        }
    }
}

/// A plan difference removes before it creates: everything ahead of the
/// desired ops that run is a removal op, and the removals come in reverse
/// stage order.
pub proof fn lemma_diff_removes_first(current: Plan, desired: Plan)
    ensures
        ({
            let cur = views(current.ops@);
            let des = views(desired.ops@);
            let r = plan_diff(cur, des);
            let m = removal_part(cur, des).len();
            &&& r.subrange(m as int, r.len() as int) == by_stage(changed(cur, des))
            &&& forall|i: int| 0 <= i < m ==> is_removal_op(#[trigger] r[i])
            &&& forall|i: int, j: int| 0 <= i < j < m ==> rank_of(#[trigger] r[i]) >= rank_of(#[trigger] r[j])
        }),
{
    let cur = views(current.ops@);
    let des = views(desired.ops@);
    let seeds = removal_seeds(cur, des);
    lemma_seeds_remove(cur, des);
    lemma_spared_remove(seeds, seeds);
    lemma_desc_remove(spared(seeds, seeds), STAGE_COUNT as int);
    lemma_first_remove(by_stage_desc(spared(seeds, seeds)));
    lemma_replaced_remove(cur, des);
    let a = removals(cur, des);
    let b = replaced(cur, des);
    let ab = a + b;
    assert(all_removals(ab)) by {
        assert forall|i: int| 0 <= i < ab.len() implies is_removal_op(#[trigger] ab[i]) by {
            if i < a.len() {
                assert(ab[i] == a[i]);
            } else {
                assert(ab[i] == b[i - a.len()]);
            }
        }
    }
    lemma_desc_remove(ab, STAGE_COUNT as int);
    lemma_desc_ranks(ab, STAGE_COUNT as int);
    let d = removal_part(cur, des);
    let c = by_stage(changed(cur, des));
    let r = plan_diff(cur, des);
    assert(r == d + c);
    assert(r.subrange(d.len() as int, r.len() as int) =~= c);
    assert forall|i: int| 0 <= i < d.len() implies is_removal_op(#[trigger] r[i]) by {
        assert(r[i] == d[i]);
    }
    assert forall|i: int, j: int| 0 <= i < j < d.len() implies rank_of(#[trigger] r[i]) >= rank_of(#[trigger] r[j]) by {
        assert(r[i] == d[i]);
        assert(r[j] == d[j]);
    }
}

proof fn lemma_of_rank_ranks(s: Seq<OpView>, k: int)
    ensures
        forall|i: int| 0 <= i < of_rank(s, k).len() ==> rank_of(#[trigger] of_rank(s, k)[i]) == k,
    decreases s.len(),
{
    if s.len() > 0 {
        lemma_of_rank_ranks(s.drop_last(), k);
        let p = of_rank(s.drop_last(), k);
        if rank_of(s.last()) == k {
            assert forall|i: int| 0 <= i < of_rank(s, k).len() implies rank_of(#[trigger] of_rank(s, k)[i]) == k by {
                if i < p.len() {
                    assert(of_rank(s, k)[i] == p[i]);
                }
            }
        }
    }
}

/// The stage-descending order is sorted by rank, last first, each below `n`.
proof fn lemma_desc_ranks(s: Seq<OpView>, n: int)
    ensures
        forall|i: int| 0 <= i < by_stage_desc_upto(s, n).len() ==> #[trigger] rank_of(by_stage_desc_upto(s, n)[i]) < n,
        forall|i: int, j: int| 0 <= i < j < by_stage_desc_upto(s, n).len()
            ==> rank_of(#[trigger] by_stage_desc_upto(s, n)[i]) >= rank_of(#[trigger] by_stage_desc_upto(s, n)[j]),
    decreases n,
{
    if n > 0 {
        lemma_desc_ranks(s, n - 1);
        lemma_of_rank_ranks(s, n - 1);
        let a = of_rank(s, n - 1);
        let b = by_stage_desc_upto(s, n - 1);
        let t = by_stage_desc_upto(s, n);
        assert(t == a + b);
        assert forall|i: int| 0 <= i < t.len() implies #[trigger] rank_of(t[i]) < n by {
            if i < a.len() {
                assert(t[i] == a[i]);
            } else {
                assert(t[i] == b[i - a.len()]);
            }
        }
        assert forall|i: int, j: int| 0 <= i < j < t.len() implies rank_of(#[trigger] t[i]) >= rank_of(#[trigger] t[j]) by {
            if j < a.len() {
                assert(t[i] == a[i]);
                assert(t[j] == a[j]);
            } else if i < a.len() {
                assert(t[i] == a[i]);
                assert(t[j] == b[j - a.len()]);
            } else {
                assert(t[i] == b[i - a.len()]);
                assert(t[j] == b[j - a.len()]);
            }
        }
    } else {
        assert(by_stage_desc_upto(s, n) == Seq::<OpView>::empty());
    }
}



proof fn lemma_last_keyed_none(s: Seq<OpView>, k: Seq<char>)
    requires
        !has_key(s, k),
    ensures
        last_keyed(s, k) is None,
    decreases s.len(),
{
    if s.len() > 0 {
        assert(key_of(s[s.len() - 1]) != k);
        assert(!has_key(s.drop_last(), k)) by {
            if has_key(s.drop_last(), k) {
                let i = choose|i: int| 0 <= i < s.drop_last().len() && key_of(#[trigger] s.drop_last()[i]) == k;
                assert(s[i] == s.drop_last()[i]);
            }
        }
        lemma_last_keyed_none(s.drop_last(), k);
    }
}

proof fn lemma_changed_has(cur: Seq<OpView>, des: Seq<OpView>, i: int)
    requires
        0 <= i < des.len(),
        last_keyed(cur, key_of(des[i])) is None || reconciles(des[i]),
    ensures
        changed(cur, des).contains(des[i]),
    decreases des.len(),
{
    let a = changed(cur, des.drop_last());
    let b = change_of(cur, des.last()).1;
    assert(changed(cur, des) == a + b);
    if i == des.len() - 1 {
        assert(b == seq![des[i]]);
        assert((a + b)[a.len() as int] == des[i]);
    } else {
        assert(des.drop_last()[i] == des[i]);
        lemma_changed_has(cur, des.drop_last(), i);
        let w = choose|w: int| 0 <= w < a.len() && a[w] == des[i];
        assert((a + b)[w] == des[i]);
    }
}

proof fn lemma_of_rank_has(s: Seq<OpView>, o: OpView)
    requires
        s.contains(o),
    ensures
        of_rank(s, rank_of(o)).contains(o),
    decreases s.len(),
{
    let p = of_rank(s.drop_last(), rank_of(o));
    if s.last() == o {
        assert(of_rank(s, rank_of(o)) == p.push(o));
        assert(p.push(o)[p.len() as int] == o);
    } else {
        let w = choose|w: int| 0 <= w < s.len() && s[w] == o;
        assert(s.drop_last()[w] == o);
        lemma_of_rank_has(s.drop_last(), o);
        let v = choose|v: int| 0 <= v < p.len() && p[v] == o;
        if rank_of(s.last()) == rank_of(o) {
            assert(p.push(s.last())[v] == o);
        }
    }
}

proof fn lemma_rank_bound(o: OpView)
    ensures
        0 <= rank_of(o) < STAGE_COUNT,
{
}

proof fn lemma_by_stage_has(s: Seq<OpView>, o: OpView, n: int)
    requires
        s.contains(o),
        0 <= rank_of(o) < n,
    ensures
        by_stage_upto(s, n).contains(o),
        by_stage_desc_upto(s, n).contains(o),
    decreases n,
{
    let a = by_stage_upto(s, n - 1);
    let b = of_rank(s, n - 1);
    let c = by_stage_desc_upto(s, n - 1);
    assert(by_stage_upto(s, n) == a + b);
    assert(by_stage_desc_upto(s, n) == b + c);
    if rank_of(o) == n - 1 {
        lemma_of_rank_has(s, o);
        let w = choose|w: int| 0 <= w < b.len() && b[w] == o;
        assert((a + b)[a.len() + w] == o);
        assert((b + c)[w] == o);
    } else {
        lemma_by_stage_has(s, o, n - 1);
        let w = choose|w: int| 0 <= w < a.len() && a[w] == o;
        assert((a + b)[w] == o);
        let v = choose|v: int| 0 <= v < c.len() && c[v] == o;
        assert((b + c)[b.len() + v] == o);
    }
}

proof fn lemma_seeds_has(cur: Seq<OpView>, des: Seq<OpView>, i: int)
    requires
        0 <= i < cur.len(),
        !has_key(des, key_of(cur[i])),
        inverse_of(cur[i]) is Some,
    ensures
        removal_seeds(cur, des).contains(inverse_of(cur[i])->0),
    decreases cur.len(),
{
    let rest = removal_seeds(cur.drop_last(), des);
    let inv = inverse_of(cur[i])->0;
    if i == cur.len() - 1 {
        assert(removal_seeds(cur, des) == rest.push(inv));
        assert(rest.push(inv)[rest.len() as int] == inv);
    } else {
        assert(cur.drop_last()[i] == cur[i]);
        lemma_seeds_has(cur.drop_last(), des, i);
        let w = choose|w: int| 0 <= w < rest.len() && rest[w] == inv;
        if !has_key(des, key_of(cur.last())) && inverse_of(cur.last()) is Some {
            assert(rest.push(inverse_of(cur.last())->0)[w] == inv);
        }
    }
}

proof fn lemma_spared_has(rs: Seq<OpView>, s: Seq<OpView>, o: OpView)
    requires
        s.contains(o),
        !implied(rs, o),
    ensures
        spared(rs, s).contains(o),
    decreases s.len(),
{
    let p = spared(rs, s.drop_last());
    if s.last() == o {
        assert(spared(rs, s) == p.push(o));
        assert(p.push(o)[p.len() as int] == o);
    } else {
        let w = choose|w: int| 0 <= w < s.len() && s[w] == o;
        assert(s.drop_last()[w] == o);
        lemma_spared_has(rs, s.drop_last(), o);
        let v = choose|v: int| 0 <= v < p.len() && p[v] == o;
        if !implied(rs, s.last()) {
            assert(p.push(s.last())[v] == o);
        }
    }
}

proof fn lemma_first_has_ident(s: Seq<OpView>, o: OpView)
    requires
        s.contains(o),
    ensures
        has_ident(first_of_each(s), ident(o)),
    decreases s.len(),
{
    let p = first_of_each(s.drop_last());
    if s.last() == o {
        if has_ident(s.drop_last(), ident(o)) {
            let w = choose|w: int| 0 <= w < s.drop_last().len() && ident(#[trigger] s.drop_last()[w]) == ident(o);
            assert(s.drop_last().contains(s.drop_last()[w]));
            lemma_first_has_ident(s.drop_last(), s.drop_last()[w]);
        } else {
            assert(first_of_each(s) == p.push(o));
            assert(p.push(o)[p.len() as int] == o);
        }
    } else {
        let w = choose|w: int| 0 <= w < s.len() && s[w] == o;
        assert(s.drop_last()[w] == o);
        lemma_first_has_ident(s.drop_last(), o);
        let v = choose|v: int| 0 <= v < p.len() && ident(#[trigger] p[v]) == ident(o);
        if !has_ident(s.drop_last(), ident(s.last())) {
            assert(p.push(s.last())[v] == p[v]);
        }
    }
}

/// A plan difference runs every desired op whose key the current plan lacks
/// and every reconciling desired op (`Stack`, links up, impairments, DNS);
/// and for each current op whose key the desired plan lacks it removes that
/// op's resource (an op with the identity of its inverse is among the
/// removals), unless the removal goes with a namespace or container that
/// is removed too.
pub proof fn lemma_diff_covers(current: Plan, desired: Plan)
    ensures
        ({
            let cur = views(current.ops@);
            let des = views(desired.ops@);
            let r = plan_diff(cur, des);
            &&& forall|i: int| 0 <= i < des.len() && (!has_key(cur, key_of(#[trigger] des[i])) || reconciles(des[i]))
                ==> r.contains(des[i])
            &&& forall|i: int| 0 <= i < cur.len() && !has_key(des, key_of(#[trigger] cur[i]))
                && inverse_of(cur[i]) is Some && !implied(removal_seeds(cur, des), inverse_of(cur[i])->0)
                ==> has_ident(r, ident(inverse_of(cur[i])->0))
        }),
{
    let cur = views(current.ops@);
    let des = views(desired.ops@);
    let r = plan_diff(cur, des);
    let rp = removal_part(cur, des);
    let ch = by_stage(changed(cur, des));
    assert(r == rp + ch);
    assert forall|i: int| 0 <= i < des.len() && (!has_key(cur, key_of(#[trigger] des[i])) || reconciles(des[i]))
        implies r.contains(des[i]) by {
        if !has_key(cur, key_of(des[i])) {
            lemma_last_keyed_none(cur, key_of(des[i]));
        }
        lemma_changed_has(cur, des, i);
        lemma_rank_bound(des[i]);
        lemma_by_stage_has(changed(cur, des), des[i], STAGE_COUNT as int);
        let w = choose|w: int| 0 <= w < ch.len() && ch[w] == des[i];
        assert(r[rp.len() + w] == des[i]);
    }
    assert forall|i: int| 0 <= i < cur.len() && !has_key(des, key_of(#[trigger] cur[i]))
        && inverse_of(cur[i]) is Some && !implied(removal_seeds(cur, des), inverse_of(cur[i])->0)
        implies has_ident(r, ident(inverse_of(cur[i])->0)) by {
        let inv = inverse_of(cur[i])->0;
        let seeds = removal_seeds(cur, des);
        lemma_seeds_has(cur, des, i);
        lemma_spared_has(seeds, seeds, inv);
        lemma_rank_bound(inv);
        lemma_by_stage_has(spared(seeds, seeds), inv, STAGE_COUNT as int);
        lemma_first_has_ident(by_stage_desc(spared(seeds, seeds)), inv);
        let rm = removals(cur, des);
        let w = choose|w: int| 0 <= w < rm.len() && ident(#[trigger] rm[w]) == ident(inv);
        let both = rm + replaced(cur, des);
        assert(both[w] == rm[w]);
        assert(both.contains(rm[w]));
        lemma_rank_bound(rm[w]);
        lemma_by_stage_has(both, rm[w], STAGE_COUNT as int);
        let v = choose|v: int| 0 <= v < rp.len() && rp[v] == rm[w];
        assert(r[v] == rp[v]);
    }
}

/// Every op of `t` is an op of `s`.
pub open spec fn drawn_from(t: Seq<OpView>, s: Seq<OpView>) -> bool {
    forall|i: int| 0 <= i < t.len() ==> s.contains(#[trigger] t[i])
}

proof fn lemma_drawn_trans(a: Seq<OpView>, b: Seq<OpView>, c: Seq<OpView>)
    requires
        drawn_from(a, b),
        drawn_from(b, c),
    ensures
        drawn_from(a, c),
{
    assert forall|i: int| 0 <= i < a.len() implies c.contains(#[trigger] a[i]) by {
        assert(b.contains(a[i]));
        let w = choose|w: int| 0 <= w < b.len() && b[w] == a[i];
        assert(c.contains(b[w]));
    }
}

proof fn lemma_drawn_concat(a: Seq<OpView>, b: Seq<OpView>, s: Seq<OpView>)
    requires
        drawn_from(a, s),
        drawn_from(b, s),
    ensures
        drawn_from(a + b, s),
{
    assert forall|i: int| 0 <= i < (a + b).len() implies s.contains(#[trigger] (a + b)[i]) by {
        if i < a.len() {
            assert((a + b)[i] == a[i]);
        } else {
            assert((a + b)[i] == b[i - a.len()]);
        }
    }
}

/// Keeping some ops of `s.drop_last()` and maybe the last one draws from `s`.
proof fn lemma_drawn_step(p: Seq<OpView>, s: Seq<OpView>, keep_last: bool)
    requires
        s.len() > 0,
        drawn_from(p, s.drop_last()),
    ensures
        drawn_from(if keep_last { p.push(s.last()) } else { p }, s),
{
    let q = if keep_last { p.push(s.last()) } else { p };
    assert forall|i: int| 0 <= i < q.len() implies s.contains(#[trigger] q[i]) by {
        if i < p.len() {
            assert(q[i] == p[i]);
            assert(s.drop_last().contains(p[i]));
            let w = choose|w: int| 0 <= w < s.drop_last().len() && s.drop_last()[w] == p[i];
            assert(s[w] == p[i]);
        } else {
            assert(q[i] == s.last());
            assert(s[s.len() - 1] == s.last());
        }
    }
}

proof fn lemma_of_rank_drawn(s: Seq<OpView>, k: int)
    ensures
        drawn_from(of_rank(s, k), s),
    decreases s.len(),
{
    if s.len() > 0 {
        lemma_of_rank_drawn(s.drop_last(), k);
        lemma_drawn_step(of_rank(s.drop_last(), k), s, rank_of(s.last()) == k);
    }
}

proof fn lemma_spared_drawn(rs: Seq<OpView>, s: Seq<OpView>)
    ensures
        drawn_from(spared(rs, s), s),
    decreases s.len(),
{
    if s.len() > 0 {
        lemma_spared_drawn(rs, s.drop_last());
        lemma_drawn_step(spared(rs, s.drop_last()), s, !implied(rs, s.last()));
    }
}

proof fn lemma_first_drawn(s: Seq<OpView>)
    ensures
        drawn_from(first_of_each(s), s),
    decreases s.len(),
{
    if s.len() > 0 {
        lemma_first_drawn(s.drop_last());
        lemma_drawn_step(first_of_each(s.drop_last()), s, !has_ident(s.drop_last(), ident(s.last())));
    }
}

proof fn lemma_by_stage_drawn(s: Seq<OpView>, n: int)
    ensures
        drawn_from(by_stage_upto(s, n), s),
        drawn_from(by_stage_desc_upto(s, n), s),
    decreases n,
{
    if n > 0 {
        lemma_by_stage_drawn(s, n - 1);
        lemma_of_rank_drawn(s, n - 1);
        lemma_drawn_concat(by_stage_upto(s, n - 1), of_rank(s, n - 1), s);
        lemma_drawn_concat(of_rank(s, n - 1), by_stage_desc_upto(s, n - 1), s);
    } else {
        assert(by_stage_upto(s, n) =~= Seq::<OpView>::empty());
        assert(by_stage_desc_upto(s, n) =~= Seq::<OpView>::empty());
    }
}

proof fn lemma_changed_drawn(cur: Seq<OpView>, des: Seq<OpView>)
    ensures
        drawn_from(changed(cur, des), des),
    decreases des.len(),
{
    if des.len() > 0 {
        lemma_changed_drawn(cur, des.drop_last());
        let a = changed(cur, des.drop_last());
        let b = change_of(cur, des.last()).1;
        assert forall|i: int| 0 <= i < (a + b).len() implies des.contains(#[trigger] (a + b)[i]) by {
            if i < a.len() {
                assert((a + b)[i] == a[i]);
                assert(des.drop_last().contains(a[i]));
                let w = choose|w: int| 0 <= w < des.drop_last().len() && des.drop_last()[w] == a[i];
                assert(des[w] == a[i]);
            } else {
                assert((a + b)[i] == b[i - a.len()]);
                assert(b[i - a.len()] == des.last());
                assert(des[des.len() - 1] == des.last());
            }
        }
    }
}

proof fn lemma_by_stage_ranks(s: Seq<OpView>, n: int)
    ensures
        forall|i: int| 0 <= i < by_stage_upto(s, n).len() ==> #[trigger] rank_of(by_stage_upto(s, n)[i]) < n,
        forall|i: int, j: int| 0 <= i < j < by_stage_upto(s, n).len()
            ==> rank_of(#[trigger] by_stage_upto(s, n)[i]) <= rank_of(#[trigger] by_stage_upto(s, n)[j]),
    decreases n,
{
    if n > 0 {
        lemma_by_stage_ranks(s, n - 1);
        lemma_of_rank_ranks(s, n - 1);
        let a = by_stage_upto(s, n - 1);
        let b = of_rank(s, n - 1);
        let t = by_stage_upto(s, n);
        assert(t == a + b);
        assert forall|i: int| 0 <= i < t.len() implies #[trigger] rank_of(t[i]) < n by {
            if i < a.len() {
                assert(t[i] == a[i]);
            } else {
                assert(t[i] == b[i - a.len()]);
            }
        }
        assert forall|i: int, j: int| 0 <= i < j < t.len() implies rank_of(#[trigger] t[i]) <= rank_of(#[trigger] t[j]) by {
            if j < a.len() {
                assert(t[i] == a[i]);
                assert(t[j] == a[j]);
            } else if i < a.len() {
                assert(t[i] == a[i]);
                assert(t[j] == b[j - a.len()]);
            } else {
                assert(t[i] == b[i - a.len()]);
                assert(t[j] == b[j - a.len()]);
            }
        }
    } else {
        assert(by_stage_upto(s, n) == Seq::<OpView>::empty());
    }
}

/// Where the desired plan holds no removal op, the ops a plan difference
/// runs after its removals hold none either, and they come in stage order.
pub proof fn lemma_diff_runs_in_order(current: Plan, desired: Plan)
    requires
        forall|i: int| 0 <= i < desired.ops@.len() ==> !is_removal_op(#[trigger] desired.ops@[i]@),
    ensures
        ({
            let cur = views(current.ops@);
            let des = views(desired.ops@);
            let r = plan_diff(cur, des);
            let m = removal_part(cur, des).len();
            &&& forall|i: int| m <= i < r.len() ==> !is_removal_op(#[trigger] r[i])
            &&& forall|i: int, j: int| m <= i < j < r.len() ==> rank_of(#[trigger] r[i]) <= rank_of(#[trigger] r[j])
        }),
{
    let cur = views(current.ops@);
    let des = views(desired.ops@);
    let r = plan_diff(cur, des);
    let d = removal_part(cur, des);
    let c = by_stage(changed(cur, des));
    let m = d.len();
    assert(r == d + c);
    lemma_changed_drawn(cur, des);
    lemma_by_stage_drawn(changed(cur, des), STAGE_COUNT as int);
    lemma_drawn_trans(c, changed(cur, des), des);
    lemma_by_stage_ranks(changed(cur, des), STAGE_COUNT as int);
    assert forall|i: int| m <= i < r.len() implies !is_removal_op(#[trigger] r[i]) by {
        assert(r[i] == c[i - m]);
        assert(des.contains(c[i - m]));
        let w = choose|w: int| 0 <= w < des.len() && des[w] == c[i - m];
        assert(des[w] == desired.ops@[w]@);
    }
    assert forall|i: int, j: int| m <= i < j < r.len() implies rank_of(#[trigger] r[i]) <= rank_of(#[trigger] r[j]) by {
        assert(r[i] == c[i - m]);
        assert(r[j] == c[j - m]);
    }
}

/// Op `x` undoes current op `k`, which the desired ops `des` drop.
pub open spec fn undoes_dropped(cur: Seq<OpView>, des: Seq<OpView>, k: int, x: OpView) -> bool {
    &&& 0 <= k < cur.len()
    &&& !has_key(des, key_of(cur[k]))
    &&& inverse_of(cur[k]) == Some(x)
}

/// Op `x` undoes some current op that the desired ops drop.
pub open spec fn undoes_some(cur: Seq<OpView>, des: Seq<OpView>, x: OpView) -> bool {
    exists|k: int| undoes_dropped(cur, des, k, x)
}

proof fn lemma_seeds_undo(cur: Seq<OpView>, des: Seq<OpView>)
    ensures
        forall|i: int| 0 <= i < removal_seeds(cur, des).len()
            ==> undoes_some(cur, des, #[trigger] removal_seeds(cur, des)[i]),
    decreases cur.len(),
{
    if cur.len() > 0 {
        let c0 = cur.drop_last();
        lemma_seeds_undo(c0, des);
        let rest = removal_seeds(c0, des);
        let s = removal_seeds(cur, des);
        let pushed = !has_key(des, key_of(cur.last())) && inverse_of(cur.last()) is Some;
        if pushed {
            assert(s == rest.push(inverse_of(cur.last())->0));
        } else {
            assert(s == rest);
        }
        assert forall|i: int| 0 <= i < s.len() implies undoes_some(cur, des, #[trigger] s[i]) by {
            if i < rest.len() {
                assert(s[i] == rest[i]);
                assert(undoes_some(c0, des, rest[i]));
                let k = choose|k: int| undoes_dropped(c0, des, k, rest[i]);
                assert(cur[k] == c0[k]);
                assert(undoes_dropped(cur, des, k, s[i]));
            } else {
                assert(s[i] == inverse_of(cur.last())->0);
                assert(cur[cur.len() - 1] == cur.last());
                assert(undoes_dropped(cur, des, cur.len() - 1, s[i]));
            }
        }
    }
}

proof fn lemma_last_keyed_in(s: Seq<OpView>, k: Seq<char>)
    ensures
        last_keyed(s, k) matches Some(e) ==> s.contains(e),
    decreases s.len(),
{
    if s.len() > 0 {
        lemma_last_keyed_in(s.drop_last(), k);
        if key_of(s.last()) != k {
            if let Some(e) = last_keyed(s.drop_last(), k) {
                let w = choose|w: int| 0 <= w < s.drop_last().len() && s.drop_last()[w] == e;
                assert(s[w] == e);
            }
        } else {
            assert(s[s.len() - 1] == s.last());
        }
    }
}

proof fn lemma_replaced_undo(cur: Seq<OpView>, des: Seq<OpView>)
    ensures
        forall|i: int| 0 <= i < replaced(cur, des).len()
            ==> exists|k: int| 0 <= k < cur.len() && inverse_of(cur[k]) == Some(#[trigger] replaced(cur, des)[i]),
    decreases des.len(),
{
    if des.len() > 0 {
        lemma_replaced_undo(cur, des.drop_last());
        let a = replaced(cur, des.drop_last());
        let b = change_of(cur, des.last()).0;
        lemma_last_keyed_in(cur, key_of(des.last()));
        assert forall|i: int| 0 <= i < (a + b).len()
            implies exists|k: int| 0 <= k < cur.len() && inverse_of(cur[k]) == Some(#[trigger] (a + b)[i]) by {
            if i < a.len() {
                assert((a + b)[i] == a[i]);
            } else {
                assert((a + b)[i] == b[i - a.len()]);
                let e = last_keyed(cur, key_of(des.last()))->0;
                let w = choose|w: int| 0 <= w < cur.len() && cur[w] == e;
                assert(inverse_of(cur[w]) == Some((a + b)[i]));
            }
        }
    }
}

/// The removals of a plan difference are inverses themselves: each undoes
/// a current op. For every current op whose key the desired plan lacks,
/// with an inverse that no removed namespace or container implies, the
/// removals hold the inverse of a dropped op with the same identity (one
/// per identity: the first); where the dropped ops of that identity all
/// have the same inverse, they hold that inverse itself.
pub proof fn lemma_diff_removals_are_inverses(current: Plan, desired: Plan)
    ensures
        ({
            let cur = views(current.ops@);
            let des = views(desired.ops@);
            let r = plan_diff(cur, des);
            let m = removal_part(cur, des).len();
            let seeds = removal_seeds(cur, des);
            &&& forall|i: int| 0 <= i < m ==> exists|k: int| 0 <= k < cur.len() && inverse_of(cur[k]) == Some(#[trigger] r[i])
            &&& forall|k: int| #![trigger cur[k]] 0 <= k < cur.len() && !has_key(des, key_of(cur[k]))
                && inverse_of(cur[k]) is Some && !implied(seeds, inverse_of(cur[k])->0)
                ==> exists|w: int, k2: int| 0 <= w < m && ident(r[w]) == ident(inverse_of(cur[k])->0)
                    && #[trigger] undoes_dropped(cur, des, k2, r[w])
            &&& forall|k: int| #![trigger cur[k]] 0 <= k < cur.len() && !has_key(des, key_of(cur[k]))
                && inverse_of(cur[k]) is Some && !implied(seeds, inverse_of(cur[k])->0)
                && (forall|k2: int| #![trigger cur[k2]] 0 <= k2 < cur.len() && !has_key(des, key_of(cur[k2]))
                    && inverse_of(cur[k2]) is Some && ident(inverse_of(cur[k2])->0) == ident(inverse_of(cur[k])->0)
                    ==> inverse_of(cur[k2]) == inverse_of(cur[k]))
                ==> r.contains(inverse_of(cur[k])->0)
        }),
{
    let cur = views(current.ops@);
    let des = views(desired.ops@);
    let r = plan_diff(cur, des);
    let rp = removal_part(cur, des);
    let m = rp.len();
    let seeds = removal_seeds(cur, des);
    let rm = removals(cur, des);
    let rep = replaced(cur, des);
    let both = rm + rep;
    assert(r == rp + by_stage(changed(cur, des)));
    lemma_seeds_undo(cur, des);
    lemma_replaced_undo(cur, des);
    lemma_spared_drawn(seeds, seeds);
    lemma_by_stage_drawn(spared(seeds, seeds), STAGE_COUNT as int);
    lemma_first_drawn(by_stage_desc(spared(seeds, seeds)));
    lemma_drawn_trans(rm, by_stage_desc(spared(seeds, seeds)), spared(seeds, seeds));
    lemma_drawn_trans(rm, spared(seeds, seeds), seeds);
    lemma_by_stage_drawn(both, STAGE_COUNT as int);
    assert forall|i: int| 0 <= i < m implies exists|k: int| 0 <= k < cur.len() && inverse_of(cur[k]) == Some(#[trigger] r[i]) by {
        assert(r[i] == rp[i]);
        assert(both.contains(rp[i]));
        let w = choose|w: int| 0 <= w < both.len() && both[w] == rp[i];
        if w < rm.len() {
            assert(both[w] == rm[w]);
            assert(seeds.contains(rm[w]));
            let v = choose|v: int| 0 <= v < seeds.len() && seeds[v] == rm[w];
            assert(undoes_some(cur, des, seeds[v]));
            let k = choose|k: int| undoes_dropped(cur, des, k, seeds[v]);
            assert(inverse_of(cur[k]) == Some(r[i]));
        } else {
            assert(both[w] == rep[w - rm.len()]);
            let k = choose|k: int| 0 <= k < cur.len() && inverse_of(cur[k]) == Some(rep[w - rm.len()]);
            assert(inverse_of(cur[k]) == Some(r[i]));
        }
    }
    assert forall|k: int| #![trigger cur[k]] 0 <= k < cur.len() && !has_key(des, key_of(cur[k]))
        && inverse_of(cur[k]) is Some && !implied(seeds, inverse_of(cur[k])->0)
        implies exists|w: int, k2: int| 0 <= w < m && ident(r[w]) == ident(inverse_of(cur[k])->0)
            && #[trigger] undoes_dropped(cur, des, k2, r[w]) by {
        let inv = inverse_of(cur[k])->0;
        lemma_seeds_has(cur, des, k);
        lemma_spared_has(seeds, seeds, inv);
        lemma_rank_bound(inv);
        lemma_by_stage_has(spared(seeds, seeds), inv, STAGE_COUNT as int);
        lemma_first_has_ident(by_stage_desc(spared(seeds, seeds)), inv);
        let w = choose|w: int| 0 <= w < rm.len() && ident(#[trigger] rm[w]) == ident(inv);
        assert(seeds.contains(rm[w]));
        let v = choose|v: int| 0 <= v < seeds.len() && seeds[v] == rm[w];
        assert(undoes_some(cur, des, seeds[v]));
        let k2 = choose|k2: int| undoes_dropped(cur, des, k2, seeds[v]);
        assert(both[w] == rm[w]);
        assert(both.contains(rm[w]));
        lemma_rank_bound(rm[w]);
        lemma_by_stage_has(both, rm[w], STAGE_COUNT as int);
        let u = choose|u: int| 0 <= u < rp.len() && rp[u] == rm[w];
        assert(r[u] == rp[u]);
        assert(undoes_dropped(cur, des, k2, r[u]));
    }
    assert forall|k: int| #![trigger cur[k]] 0 <= k < cur.len() && !has_key(des, key_of(cur[k]))
        && inverse_of(cur[k]) is Some && !implied(seeds, inverse_of(cur[k])->0)
        && (forall|k2: int| #![trigger cur[k2]] 0 <= k2 < cur.len() && !has_key(des, key_of(cur[k2]))
            && inverse_of(cur[k2]) is Some && ident(inverse_of(cur[k2])->0) == ident(inverse_of(cur[k])->0)
            ==> inverse_of(cur[k2]) == inverse_of(cur[k]))
        implies r.contains(inverse_of(cur[k])->0) by {
        let inv = inverse_of(cur[k])->0;
        lemma_seeds_has(cur, des, k);
        lemma_spared_has(seeds, seeds, inv);
        lemma_rank_bound(inv);
        lemma_by_stage_has(spared(seeds, seeds), inv, STAGE_COUNT as int);
        lemma_first_has_ident(by_stage_desc(spared(seeds, seeds)), inv);
        let w = choose|w: int| 0 <= w < rm.len() && ident(#[trigger] rm[w]) == ident(inv);
        assert(seeds.contains(rm[w]));
        let v = choose|v: int| 0 <= v < seeds.len() && seeds[v] == rm[w];
        assert(undoes_some(cur, des, seeds[v]));
        let k2 = choose|k2: int| undoes_dropped(cur, des, k2, seeds[v]);
        assert(inverse_of(cur[k2]) == inverse_of(cur[k]));
        assert(rm[w] == inv);
        assert(both[w] == rm[w]);
        assert(both.contains(rm[w]));
        lemma_rank_bound(rm[w]);
        lemma_by_stage_has(both, rm[w], STAGE_COUNT as int);
        let u = choose|u: int| 0 <= u < rp.len() && rp[u] == rm[w];
        assert(r[u] == rp[u]);
    }
}

// ─── Apply report ───────────────────────────────────────────────────

/// The number of removal ops in `s`.
pub open spec fn removal_count(s: Seq<OpView>) -> nat
    decreases s.len(),
{
    if s.len() == 0 {
        0
    } else {
        removal_count(s.drop_last()) + if is_removal_op(s.last()) { 1nat } else { 0nat }
    }
}

proof fn lemma_removal_count_bound(s: Seq<OpView>)
    ensures
        removal_count(s) <= s.len(),
    decreases s.len(),
{
    if s.len() > 0 {
        lemma_removal_count_bound(s.drop_last());
    }
}

/// What reconciling a lab with the plan `diff` reports: how many ops run,
/// how many of them remove, and each op's description in execution order.
pub fn apply_report(diff: &Plan) -> (r: ApplyReport)
    ensures
        r.ops == diff.ops@.len(),
        r.removed == removal_count(views(diff.ops@)),
        r.applied@.map_values(|s: String| s@) == views(diff.ops@).map_values(|o: OpView| description(o)),
{
    let mut removed: usize = 0;
    let mut applied: Vec<String> = Vec::new();
    let mut i: usize = 0;
    while i < diff.ops.len()
        invariant
            i <= diff.ops@.len(),
            removed == removal_count(views(diff.ops@).take(i as int)),
            applied@.map_values(|s: String| s@) == views(diff.ops@).take(i as int).map_values(|o: OpView| description(o)),
        decreases diff.ops@.len() - i,
    {
        proof {
            lemma_views_take(diff.ops@, i as int);
            lemma_removal_count_bound(views(diff.ops@).take(i as int));
        }
        if diff.ops[i].is_removal() {
            removed = removed + 1;
        }
        let ghost before = applied@;
        let d = diff.ops[i].describe();
        applied.push(d);
        proof {
            let t = views(diff.ops@).take(i + 1);
            assert(applied@.map_values(|s: String| s@) =~= before.map_values(|s: String| s@).push(d@));
            assert(t.map_values(|o: OpView| description(o))
                =~= t.drop_last().map_values(|o: OpView| description(o)).push(description(t.last())));
        }
        i = i + 1;
    }
    assert(views(diff.ops@).take(diff.ops@.len() as int) =~= views(diff.ops@));
    ApplyReport { ops: diff.ops.len(), removed, applied }
}


/// A plan difference re-runs every desired `Stack`, links-up, network
/// impairment, hosts-entry or `/etc` overlay op, whether or not the
/// current plan has its key: these apply whatever the node's
/// configuration is now. In particular the difference of a plan with
/// itself holds each of those ops of the plan.
pub proof fn lemma_diff_reruns_reconciling_ops(current: Plan, desired: Plan)
    ensures
        forall|i: int| 0 <= i < desired.ops@.len() && ((#[trigger] desired.ops@[i]) is Stack
            || desired.ops@[i] is LinksUp || desired.ops@[i] is NetworkImpairments
            || desired.ops@[i] is DnsInject || desired.ops@[i] is DnsNetnsEtc)
            ==> plan_diff(views(current.ops@), views(desired.ops@)).contains(desired.ops@[i]@),
{
    lemma_diff_covers(current, desired);
    let des = views(desired.ops@);
    assert forall|i: int| 0 <= i < desired.ops@.len() && ((#[trigger] desired.ops@[i]) is Stack
        || desired.ops@[i] is LinksUp || desired.ops@[i] is NetworkImpairments
        || desired.ops@[i] is DnsInject || desired.ops@[i] is DnsNetnsEtc)
        implies plan_diff(views(current.ops@), des).contains(desired.ops@[i]@) by {
        assert(des[i] == desired.ops@[i]@);
        assert(des[i] is Stack || des[i] is LinksUp || des[i] is NetworkImpairments
            || des[i] is DnsInject || des[i] is DnsNetnsEtc);
    }
}

} // verus!
