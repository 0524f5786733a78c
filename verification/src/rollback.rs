//! Undo journal for deploy / apply.
//!
//! Every mutation a deploy performs records its inverse here after it
//! succeeded. On an error the journal is unwound newest-first; on success it
//! is discarded. A persisted journal (`journal.json` in the lab's state
//! directory) lets a later run unwind what an interrupted one left.
//!
//! The journal decides what is undone and in which order; carrying out an
//! undo, and writing or removing the file, is left to the caller.
use vstd::prelude::*;
use crate::op::NsRef;
use crate::text::owned;
use crate::container::join_path;

verus! {

/// One reversible mutation.
#[derive(Debug, Clone)]
pub enum Undo {
    FreeSubnets { lab: String },
    DeleteNamespace { ns: String },
    RemoveContainer { binary: String, id: String },
    ReleaseHwsim { lab: String },
    /// A link in the root namespace, deleted through netlink.
    DeleteHostLink { name: String },
    /// A link inside a node namespace (a veth end takes its peer along).
    DeleteLink { ns: NsRef, iface: String },
    ClearQdisc { ns: NsRef, iface: String },
    RemoveHosts { lab: String },
    RemoveNetnsEtc { ns: String },
    /// Identity-checked kill of a tracked process.
    KillProcess { pid: u32, starttime: Option<u64> },
    RemoveDir { path: String },
    CleanupWifiConfigs { lab: String },
}

/// An undo that needs a netlink connection, which is not available when
/// unwinding synchronously.
pub open spec fn needs_netlink(u: Undo) -> bool {
    u is DeleteHostLink || u is DeleteLink || u is ClearQdisc
}

/// The journal: `Undo` entries in the order their ops succeeded.
#[derive(Debug)]
pub struct Journal {
    lab: String,
    path: Option<String>,
    entries: Vec<Undo>,
    armed: bool,
}

impl Journal {
    pub closed spec fn spec_lab(&self) -> Seq<char> {
        self.lab@
    }

    pub closed spec fn spec_path(&self) -> Option<Seq<char>> {
        match self.path {
            Some(p) => Some(p@),
            None => None,
        }
    }

    /// The recorded undos, oldest first.
    pub closed spec fn spec_entries(&self) -> Seq<Undo> {
        self.entries@
    }

    /// Whether unwinding still applies (the run has not been discarded).
    pub closed spec fn spec_armed(&self) -> bool {
        self.armed
    }

    /// Journal for `lab`, persisted as `journal.json` under `state_dir`.
    pub fn new(lab: &str, state_dir: &str) -> (j: Self)
        ensures
            j.spec_lab() == lab@,
            j.spec_path() == Some(crate::container::path_join(state_dir@, "journal.json"@)),
            j.spec_entries().len() == 0,
            j.spec_armed(),
    {
        Journal {
            lab: owned(lab),
            path: Some(join_path(state_dir, "journal.json")),
            entries: Vec::new(),
            armed: true,
        }
    }

    /// In-memory journal (tests, dry runs).
    pub fn ephemeral(lab: &str) -> (j: Self)
        ensures
            j.spec_lab() == lab@,
            j.spec_path() is None,
            j.spec_entries().len() == 0,
            j.spec_armed(),
    {
        Journal { lab: owned(lab), path: None, entries: Vec::new(), armed: true }
    }

    /// Path of a persisted journal under `state_dir`, where such a file
    /// exists (`is_file`).
    pub fn pending_path(state_dir: &str, is_file: bool) -> (r: Option<String>)
        ensures
            is_file ==> (r matches Some(p) && p@ == crate::container::path_join(state_dir@, "journal.json"@)),
            !is_file ==> r is None,
    {
        if is_file {
            Some(join_path(state_dir, "journal.json"))
        } else {
            None
        }
    }

    /// A journal left by an interrupted run, holding `entries` read from
    /// `path`.
    pub fn pending(lab: &str, path: String, entries: Vec<Undo>) -> (j: Self)
        ensures
            j.spec_lab() == lab@,
            j.spec_path() == Some(path@),
            j.spec_entries() == entries@,
            j.spec_armed(),
    {
        Journal { lab: owned(lab), path: Some(path), entries, armed: true }
    }

    pub fn lab(&self) -> (r: &str)
        ensures
            r@ == self.spec_lab(),
    {
        self.lab.as_str()
    }

    /// Where the journal is persisted, if it is.
    pub fn path(&self) -> (r: Option<&String>)
        ensures
            match r {
                Some(p) => self.spec_path() == Some(p@),
                None => self.spec_path() is None,
            },
    {
        match &self.path {
            Some(p) => Some(p),
            None => None,
        }
    }

    pub fn entries(&self) -> (r: &[Undo])
        ensures
            r@ == self.spec_entries(),
    {
        self.entries.as_slice()
    }

    pub fn is_empty(&self) -> (b: bool)
        ensures
            b == (self.spec_entries().len() == 0),
    {
        self.entries.len() == 0
    }

    /// Record the inverse of a mutation that just succeeded.
    pub fn record(&mut self, undo: Undo)
        ensures
            journal_step(*old(self), JournalCall::Record(undo), *final(self)),
            final(self).spec_entries() == old(self).spec_entries().push(undo),
            final(self).spec_lab() == old(self).spec_lab(),
            final(self).spec_path() == old(self).spec_path(),
            final(self).spec_armed() == old(self).spec_armed(),
    {
        self.entries.push(undo);
    }

    /// The run succeeded: forget the journal.
    pub fn discard(&mut self)
        ensures
            journal_step(*old(self), JournalCall::Discard, *final(self)),
            final(self).spec_entries().len() == 0,
            !final(self).spec_armed(),
            final(self).spec_lab() == old(self).spec_lab(),
            final(self).spec_path() == old(self).spec_path(),
    {
        self.armed = false;
        self.entries = Vec::new();
    }

    /// What unwinding undoes, in order: every entry, newest first; nothing
    /// once the journal is discarded.
    pub fn unwind_order(&self) -> (r: Vec<Undo>)
        ensures
            self.spec_armed() ==> r@ == self.spec_entries().reverse(),
            !self.spec_armed() ==> r@.len() == 0,
    {
        let mut r: Vec<Undo> = Vec::new();
        if !self.armed {
            return r;
        }
        let n = self.entries.len();
        let mut i: usize = 0;
        while i < n
            invariant
                n == self.entries@.len(),
                i <= n,
                r@ == self.entries@.reverse().take(i as int),
            decreases n - i,
        {
            r.push(self.entries[n - 1 - i].clone_undo());
            i = i + 1;
            assert(r@ =~= self.entries@.reverse().take(i as int));
        }
        assert(r@ =~= self.entries@.reverse());
        r
    }

    /// What a last-resort synchronous unwind (an interrupted run) undoes:
    /// the entries newest first, without those that need netlink; nothing
    /// once discarded or when empty.
    pub fn sync_unwind_order(&self) -> (r: Vec<Undo>)
        ensures
            self.spec_armed() ==> r@ == self.spec_entries().reverse().filter(|u: Undo| !needs_netlink(u)),
            !self.spec_armed() ==> r@.len() == 0,
    {
        let mut r: Vec<Undo> = Vec::new();
        if !self.armed {
            return r;
        }
        let ghost rev = self.entries@.reverse();
        let n = self.entries.len();
        let mut i: usize = 0;
        while i < n
            invariant
                n == self.entries@.len(),
                rev == self.entries@.reverse(),
                i <= n,
                r@ == rev.take(i as int).filter(|u: Undo| !needs_netlink(u)),
            decreases n - i,
        {
            let u = &self.entries[n - 1 - i];
            let skip = match u {
                Undo::DeleteHostLink { .. } => true,
                Undo::DeleteLink { .. } => true,
                Undo::ClearQdisc { .. } => true,
                _ => false,
            };
            proof {
                assert(rev.take(i + 1).drop_last() =~= rev.take(i as int));
                reveal(Seq::filter);
            }
            if !skip {
                r.push(u.clone_undo());
            }
            i = i + 1;
        }
        assert(rev.take(n as int) =~= rev);
        r
    }
}

impl Undo {
    /// An identical copy.
    pub fn clone_undo(&self) -> (r: Self)
        ensures
            r == *self,
    {
        match self {
            Undo::FreeSubnets { lab } => Undo::FreeSubnets { lab: lab.clone() },
            Undo::DeleteNamespace { ns } => Undo::DeleteNamespace { ns: ns.clone() },
            Undo::RemoveContainer { binary, id } => Undo::RemoveContainer { binary: binary.clone(), id: id.clone() },
            Undo::ReleaseHwsim { lab } => Undo::ReleaseHwsim { lab: lab.clone() },
            Undo::DeleteHostLink { name } => Undo::DeleteHostLink { name: name.clone() },
            Undo::DeleteLink { ns, iface } => Undo::DeleteLink { ns: ns.clone_ns(), iface: iface.clone() },
            Undo::ClearQdisc { ns, iface } => Undo::ClearQdisc { ns: ns.clone_ns(), iface: iface.clone() },
            Undo::RemoveHosts { lab } => Undo::RemoveHosts { lab: lab.clone() },
            Undo::RemoveNetnsEtc { ns } => Undo::RemoveNetnsEtc { ns: ns.clone() },
            Undo::KillProcess { pid, starttime } => Undo::KillProcess { pid: *pid, starttime: *starttime },
            Undo::RemoveDir { path } => Undo::RemoveDir { path: path.clone() },
            Undo::CleanupWifiConfigs { lab } => Undo::CleanupWifiConfigs { lab: lab.clone() },
        }
    }
}

impl NsRef {
    /// An identical copy.
    pub fn clone_ns(&self) -> (r: Self)
        ensures
            r == *self,
    {
        match self {
            NsRef::Root => NsRef::Root,
            NsRef::Named { name } => NsRef::Named { name: name.clone() },
            NsRef::Container { id, pid } => NsRef::Container { id: id.clone(), pid: *pid },
        }
    }
}

/// Recording an undo puts it first in line: the unwind order after
/// recording `u` is `u`, then the unwind order from before.
pub proof fn lemma_record_unwinds_first(entries: Seq<Undo>, u: Undo)
    ensures
        entries.push(u).reverse() == seq![u] + entries.reverse(),
{
    assert(entries.push(u).reverse() =~= seq![u] + entries.reverse());
}

/// A call that a journal goes through.
pub enum JournalCall {
    /// [`Journal::record`] of this undo.
    Record(Undo),
    /// [`Journal::discard`].
    Discard,
    /// Unwinding: reading [`Journal::unwind_order`], which leaves the
    /// journal as it is.
    Unwind,
}

/// Journal `b` is journal `a` after call `c`: the lab and the path stay;
/// a record appends its undo, a discard empties and disarms, an unwind
/// changes nothing.
pub open spec fn journal_step(a: Journal, c: JournalCall, b: Journal) -> bool {
    &&& b.spec_lab() == a.spec_lab()
    &&& b.spec_path() == a.spec_path()
    &&& match c {
        JournalCall::Record(u) => b.spec_entries() == a.spec_entries().push(u) && b.spec_armed() == a.spec_armed(),
        JournalCall::Discard => b.spec_entries().len() == 0 && !b.spec_armed(),
        JournalCall::Unwind => b == a,
    }
}

/// The undos that a run of calls records, in order.
pub open spec fn recorded(calls: Seq<JournalCall>) -> Seq<Undo>
    decreases calls.len(),
{
    if calls.len() == 0 {
        Seq::empty()
    } else {
        recorded(calls.drop_last()) + match calls.last() {
            JournalCall::Record(u) => seq![u],
            _ => Seq::empty(),
        }
    }
}

/// Over any run of record, discard and unwind calls a journal keeps its
/// lab; and where the run holds no discard, its entries are those it
/// started with followed by every recorded undo, in the order recorded,
/// none dropped, merged or reordered. `js[i + 1]` is the journal after
/// `calls[i]`.
pub proof fn lemma_journal_run(js: Seq<Journal>, calls: Seq<JournalCall>)
    requires
        js.len() == calls.len() + 1,
        forall|i: int| 0 <= i < calls.len() ==> journal_step(js[i], #[trigger] calls[i], js[i + 1]),
    ensures
        js.last().spec_lab() == js[0].spec_lab(),
        (forall|i: int| 0 <= i < calls.len() ==> !(#[trigger] calls[i] is Discard))
            ==> js.last().spec_entries() == js[0].spec_entries() + recorded(calls),
    decreases calls.len(),
{
    if calls.len() > 0 {
        let n = calls.len() - 1;
        let js0 = js.drop_last();
        let c0 = calls.drop_last();
        assert forall|i: int| 0 <= i < c0.len() implies journal_step(js0[i], #[trigger] c0[i], js0[i + 1]) by {
            assert(c0[i] == calls[i]);
            assert(journal_step(js[i], calls[i], js[i + 1]));
        }
        lemma_journal_run(js0, c0);
        assert(journal_step(js[n], calls[n], js[n + 1]));
        assert(js0.last() == js[n]);
        assert(js0[0] == js[0]);
        if forall|i: int| 0 <= i < calls.len() ==> !(#[trigger] calls[i] is Discard) {
            assert forall|i: int| 0 <= i < c0.len() implies !(#[trigger] c0[i] is Discard) by {
                assert(c0[i] == calls[i]);
            }
            assert(!(calls[n] is Discard));
            match calls[n] {
                JournalCall::Record(u) => {
                    assert(js.last().spec_entries() =~= js[0].spec_entries() + recorded(calls));
                },
                _ => {
                    assert(js.last().spec_entries() =~= js[0].spec_entries() + recorded(calls));
                },
            }
        }
    }
}


// ─── Deploy cleanup guard ───────────────────────────────────────────

/// What a failing deploy has to tear down: the namespaces and containers it
/// created, the runtime that created the containers, the lab whose hosts
/// entries it injected, and whether it loaded the simulated radios. While
/// `armed`, dropping the guard tears these down; a deploy that succeeds
/// disarms it.
#[derive(Debug)]
pub struct Cleanup {
    pub namespaces: Vec<String>,
    pub containers: Vec<String>,
    pub runtime_binary: Option<String>,
    pub dns_lab: Option<String>,
    pub wifi_loaded: bool,
    pub armed: bool,
}

impl Cleanup {
    /// An armed guard with nothing to tear down.
    pub fn new() -> (c: Self)
        ensures
            c.namespaces@.len() == 0,
            c.containers@.len() == 0,
            c.runtime_binary is None,
            c.dns_lab is None,
            !c.wifi_loaded,
            c.armed,
    {
        Cleanup {
            namespaces: Vec::new(),
            containers: Vec::new(),
            runtime_binary: None,
            dns_lab: None,
            wifi_loaded: false,
            armed: true,
        }
    }

    /// Records a created namespace.
    pub fn add_namespace(&mut self, name: String)
        ensures
            final(self).namespaces@ == old(self).namespaces@.push(name),
            final(self).containers@ == old(self).containers@,
            final(self).runtime_binary == old(self).runtime_binary,
            final(self).dns_lab == old(self).dns_lab,
            final(self).wifi_loaded == old(self).wifi_loaded,
            final(self).armed == old(self).armed,
    {
        self.namespaces.push(name);
    }

    /// Records a created container.
    pub fn add_container(&mut self, id: String)
        ensures
            final(self).containers@ == old(self).containers@.push(id),
            final(self).namespaces@ == old(self).namespaces@,
            final(self).runtime_binary == old(self).runtime_binary,
            final(self).dns_lab == old(self).dns_lab,
            final(self).wifi_loaded == old(self).wifi_loaded,
            final(self).armed == old(self).armed,
    {
        self.containers.push(id);
    }

    /// Records the runtime binary that removes the containers.
    pub fn set_runtime(&mut self, binary: &str)
        ensures
            final(self).runtime_binary matches Some(b) && b@ == binary@,
            final(self).namespaces@ == old(self).namespaces@,
            final(self).containers@ == old(self).containers@,
            final(self).dns_lab == old(self).dns_lab,
            final(self).wifi_loaded == old(self).wifi_loaded,
            final(self).armed == old(self).armed,
    {
        self.runtime_binary = Some(owned(binary));
    }

    /// Records the lab whose hosts entries were injected.
    pub fn set_dns_lab(&mut self, name: String)
        ensures
            final(self).dns_lab == Some(name),
            final(self).namespaces@ == old(self).namespaces@,
            final(self).containers@ == old(self).containers@,
            final(self).runtime_binary == old(self).runtime_binary,
            final(self).wifi_loaded == old(self).wifi_loaded,
            final(self).armed == old(self).armed,
    {
        self.dns_lab = Some(name);
    }

    /// The deploy succeeded: nothing is torn down.
    pub fn disarm(&mut self)
        ensures
            !final(self).armed,
            final(self).namespaces@ == old(self).namespaces@,
            final(self).containers@ == old(self).containers@,
            final(self).runtime_binary == old(self).runtime_binary,
            final(self).dns_lab == old(self).dns_lab,
            final(self).wifi_loaded == old(self).wifi_loaded,
    {
        self.armed = false;
    }
}

} // verus!
