//! cgroup v2 paths of lab nodes: every background process of a namespace
//! node lives in `/sys/fs/cgroup/nlink-lab/<lab>/<node>`; and the reading
//! of a node cgroup's counter files.
use vstd::prelude::*;
use crate::capture::{parse_u64_spec, parse_u64};
use crate::container::{join_path, path_join};
use crate::text::{lines, split_lines, trim, trim_chars, starts_with, starts_with_chars, to_chars, skip_chars};

verus! {

/// The lab's cgroup: `nlink-lab/<lab>` under the cgroup v2 mount point.
pub open spec fn lab_cgroup(lab: Seq<char>) -> Seq<char> {
    path_join(path_join("/sys/fs/cgroup"@, "nlink-lab"@), lab)
}

/// The lab's cgroup directory.
pub fn lab_dir(lab: &str) -> (p: String)
    ensures
        p@ == lab_cgroup(lab@),
{
    let base = join_path("/sys/fs/cgroup", "nlink-lab");
    join_path(base.as_str(), lab)
}

/// The node's cgroup path (whether or not it exists).
pub fn node_dir(lab: &str, node: &str) -> (p: String)
    ensures
        p@ == path_join(lab_cgroup(lab@), node@),
{
    let d = lab_dir(lab);
    join_path(d.as_str(), node)
}

/// The rest of the first of the first `n` lines that starts with
/// `usage_usec `.
pub open spec fn usage_line_upto(ls: Seq<Seq<char>>, n: int) -> Option<Seq<char>>
    decreases n,
{
    if n <= 0 {
        None
    } else {
        match usage_line_upto(ls, n - 1) {
            Some(r) => Some(r),
            None => if starts_with(ls[n - 1], "usage_usec "@) { Some(ls[n - 1].skip(11)) } else { None },
        }
    }
}

/// A counter text read as a `u64` once trimmed (`None` where it does not
/// parse, as for `max`).
pub open spec fn trimmed_u64(text: Seq<char>) -> Option<u64> {
    match parse_u64_spec(trim(text), false) {
        Ok(v) => Some(v as u64),
        Err(_) => None,
    }
}

/// The cumulative CPU time of a `cpu.stat` text, in microseconds: the
/// value of its first `usage_usec` line, 0 where there is none or the
/// value does not parse.
pub open spec fn cpu_usec_of(stat: Seq<char>) -> u64 {
    match usage_line_upto(lines(stat), lines(stat).len() as int) {
        Some(rest) => match trimmed_u64(rest) {
            Some(v) => v,
            None => 0,
        },
        None => 0,
    }
}

/// The number of the first `n` lines that are not blank.
pub open spec fn busy_lines_upto(ls: Seq<Seq<char>>, n: int) -> int
    decreases n,
{
    if n <= 0 {
        0
    } else {
        busy_lines_upto(ls, n - 1) + if trim(ls[n - 1]).len() > 0 { 1int } else { 0int }
    }
}

proof fn lemma_busy_lines_bound(ls: Seq<Seq<char>>, n: int)
    requires
        0 <= n,
    ensures
        0 <= busy_lines_upto(ls, n) <= n,
    decreases n,
{
    if n > 0 {
        lemma_busy_lines_bound(ls, n - 1);
    }
}

/// A counter text read as a `u64` (see [`trimmed_u64`]): `memory.current`,
/// `memory.max`.
pub fn parse_trimmed_u64(text: &str) -> (r: Option<u64>)
    ensures
        r == trimmed_u64(text@),
{
    let cs = to_chars(text);
    let t = trim_chars(cs.as_slice());
    match parse_u64(t.as_slice(), false) {
        Ok(v) => Some(v),
        Err(_) => None,
    }
}

/// The cumulative CPU time of a `cpu.stat` text (see [`cpu_usec_of`]).
pub fn cpu_usage_usec(stat: &str) -> (r: u64)
    ensures
        r == cpu_usec_of(stat@),
{
    let cs = to_chars(stat);
    let ls = split_lines(cs.as_slice());
    let ghost lv = ls@.map_values(|l: Vec<char>| l@);
    let prefix = to_chars("usage_usec ");
    proof { reveal_strlit("usage_usec "); }
    assert(prefix@.len() == 11);
    let mut i: usize = 0;
    while i < ls.len()
        invariant
            i <= ls@.len(),
            lv == ls@.map_values(|l: Vec<char>| l@),
            lv == lines(stat@),
            prefix@ == "usage_usec "@,
            prefix@.len() == 11,
            usage_line_upto(lv, i as int) is None,
        decreases ls@.len() - i,
    {
        if starts_with_chars(ls[i].as_slice(), prefix.as_slice()) {
            assert(lv[i as int] == ls@[i as int]@);
            let rest = skip_chars(ls[i].as_slice(), 11);
            let t = trim_chars(rest.as_slice());
            proof { lemma_usage_line_stays(lv, i as int + 1, lv.len() as int); }
            return match parse_u64(t.as_slice(), false) {
                Ok(v) => v,
                Err(_) => 0,
            };
        }
        assert(lv[i as int] == ls@[i as int]@);
        i = i + 1;
    }
    0
}

proof fn lemma_usage_line_stays(ls: Seq<Seq<char>>, i: int, n: int)
    requires
        0 <= i <= n,
        usage_line_upto(ls, i) is Some,
    ensures
        usage_line_upto(ls, n) == usage_line_upto(ls, i),
    decreases n - i,
{
    if i < n {
        lemma_usage_line_stays(ls, i, n - 1);
    }
}

/// The number of processes in a `cgroup.procs` text: its lines that are
/// not blank.
pub fn proc_count(procs: &str) -> (r: usize)
    ensures
        r == busy_lines_upto(lines(procs@), lines(procs@).len() as int),
{
    let cs = to_chars(procs);
    let ls = split_lines(cs.as_slice());
    let ghost lv = ls@.map_values(|l: Vec<char>| l@);
    let mut n: usize = 0;
    let mut i: usize = 0;
    while i < ls.len()
        invariant
            i <= ls@.len(),
            lv == ls@.map_values(|l: Vec<char>| l@),
            lv == lines(procs@),
            n == busy_lines_upto(lv, i as int),
        decreases ls@.len() - i,
    {
        proof { lemma_busy_lines_bound(lv, i as int); }
        let t = trim_chars(ls[i].as_slice());
        assert(lv[i as int] == ls@[i as int]@);
        if t.len() > 0 {
            n = n + 1;
        }
        i = i + 1;
    }
    n
}

} // verus!
