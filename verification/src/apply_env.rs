//! The context an apply run starts from: which container runtime it uses,
//! and, when it applies to a running lab, the namespaces, containers and
//! processes that lab already has.
//!
//! Whether `podman version` and `docker version` work is probed by the
//! caller and handed in.
use vstd::prelude::*;
use crate::container::{ContainerInfo, Runtime};
use crate::error::Error;
use crate::map::StrMap;
use crate::op::NsRef;
use crate::types::{ContainerRuntime, Topology};

verus! {

/// What a running lab records: the parts an apply starts from.
pub struct RunningState {
    pub name: String,
    /// The container runtime the lab was deployed with, if any.
    pub runtime_binary: Option<String>,
    /// Node → named network namespace.
    pub namespace_names: StrMap<String>,
    /// Node → its container.
    pub containers: StrMap<ContainerInfo>,
    /// `(node, pid)` of each background process.
    pub pids: Vec<(String, u32)>,
    /// Pid → start time, to tell a pid from a reused one.
    pub starttimes: Vec<(u32, u64)>,
    /// `"<node>:<index>"` → pid of a background `exec` block.
    pub exec_pids: StrMap<u32>,
    /// Pid → (stdout log, stderr log).
    pub process_logs: Vec<(u32, (String, String))>,
    /// Node → host-side management veth.
    pub mgmt_peers: StrMap<String>,
    pub dns_injected: bool,
    pub wifi_loaded: bool,
}

/// Mutable context threaded through an apply run: what exists so far (for
/// later ops to reference) and what the state file records.
pub struct ApplyEnv {
    pub lab: String,
    pub topology: Topology,
    pub runtime: Option<Runtime>,
    pub ns: StrMap<NsRef>,
    pub namespace_names: StrMap<String>,
    pub containers: StrMap<ContainerInfo>,
    pub pids: Vec<(String, u32)>,
    pub starttimes: Vec<(u32, u64)>,
    pub exec_pids: StrMap<u32>,
    pub process_logs: Vec<(u32, (String, String))>,
    pub mgmt_peers: StrMap<String>,
    pub dns_injected: bool,
    pub wifi_loaded: bool,
    /// Reconcile the declarative layers with purge (apply mode).
    pub purge: bool,
}

/// Some node of the topology runs in a container.
pub open spec fn needs_runtime(t: Topology) -> bool {
    exists|i: int| 0 <= i < t.nodes.vals().len() && (#[trigger] t.nodes.vals()[i]).image is Some
}

/// The runtime configuration of the lab (auto-detection when unset).
pub open spec fn runtime_choice(t: Topology) -> ContainerRuntime {
    match t.lab.runtime {
        Some(r) => r,
        None => ContainerRuntime::Auto,
    }
}

/// The runtime binary `Runtime::new` picks for `rt`, or `None` where it
/// fails.
pub open spec fn runtime_pick(rt: ContainerRuntime, podman_works: bool, docker_works: bool) -> Option<Seq<char>> {
    match rt {
        ContainerRuntime::Auto => if podman_works {
            Some("podman"@)
        } else if docker_works {
            Some("docker"@)
        } else {
            None
        },
        ContainerRuntime::Docker => if docker_works { Some("docker"@) } else { None },
        ContainerRuntime::Podman => if podman_works { Some("podman"@) } else { None },
    }
}

/// The namespace handle of each node of a running lab: its container where
/// it has one, else its named namespace.
pub open spec fn ns_ok(ns: StrMap<NsRef>, names: StrMap<String>, cs: StrMap<ContainerInfo>) -> bool {
    &&& ns.wf()
    &&& forall|k: Seq<char>| #[trigger] ns.view().contains_key(k)
        <==> names.view().contains_key(k) || cs.view().contains_key(k)
    &&& forall|k: Seq<char>| #[trigger] ns.view().contains_key(k) ==> if cs.view().contains_key(k) {
        ns.view()[k] matches NsRef::Container { id, pid } && id@ == cs.view()[k].id@ && pid == cs.view()[k].pid
    } else {
        ns.view()[k] matches NsRef::Named { name } && name@ == names.view()[k]@
    }
}

/// Whether some node runs in a container.
fn any_container_node(t: &Topology) -> (b: bool)
    requires
        t.wf(),
    ensures
        b == needs_runtime(*t),
{
    proof { t.nodes.lemma_view(); }
    let mut i: usize = 0;
    while i < t.nodes.len()
        invariant
            i <= t.nodes.vals().len(),
            t.nodes.keys().len() == t.nodes.vals().len(),
            forall|j: int| 0 <= j < i ==> (#[trigger] t.nodes.vals()[j]).image is None,
        decreases t.nodes.vals().len() - i,
    {
        if t.nodes.value_at(i).image.is_some() {
            return true;
        }
        i = i + 1;
    }
    false
}

impl ApplyEnv {
    /// Empty environment for a fresh deploy of `topology`. A container
    /// runtime is selected (from the lab's runtime setting and the probe
    /// results) only where some node runs in a container; selecting it can
    /// fail.
    pub fn for_deploy(topology: Topology, podman_works: bool, docker_works: bool) -> (r: Result<Self, Error>)
        requires
            topology.wf(),
        ensures
            needs_runtime(topology) && runtime_pick(runtime_choice(topology), podman_works, docker_works) is None
                <==> r is Err,
            r matches Ok(env) ==> {
                &&& env.lab@ == topology.lab.name@
                &&& env.topology == topology
                &&& match env.runtime {
                    Some(rt) => needs_runtime(topology)
                        && runtime_pick(runtime_choice(topology), podman_works, docker_works) == Some(rt.spec_binary()),
                    None => !needs_runtime(topology),
                }
                &&& env.ns.wf() && env.ns.view() == Map::<Seq<char>, NsRef>::empty()
                &&& env.namespace_names.wf() && env.namespace_names.view() == Map::<Seq<char>, String>::empty()
                &&& env.containers.wf() && env.containers.view() == Map::<Seq<char>, ContainerInfo>::empty()
                &&& env.pids@.len() == 0 && env.starttimes@.len() == 0 && env.process_logs@.len() == 0
                &&& env.exec_pids.wf() && env.exec_pids.view() == Map::<Seq<char>, u32>::empty()
                &&& env.mgmt_peers.wf() && env.mgmt_peers.view() == Map::<Seq<char>, String>::empty()
                &&& !env.dns_injected && !env.wifi_loaded && !env.purge
            },
            r matches Err(e) ==> e is DeployFailed,
    {
        let runtime = if any_container_node(&topology) {
            let choice = match topology.lab.runtime {
                Some(c) => c,
                None => ContainerRuntime::Auto,
            };
            match Runtime::new(&choice, podman_works, docker_works) {
                Ok(rt) => Some(rt),
                Err(e) => return Err(e),
            }
        } else {
            None
        };
        let lab = topology.lab.name.clone();
        Ok(ApplyEnv {
            lab,
            topology,
            runtime,
            ns: StrMap::new(),
            namespace_names: StrMap::new(),
            containers: StrMap::new(),
            pids: Vec::new(),
            starttimes: Vec::new(),
            exec_pids: StrMap::new(),
            process_logs: Vec::new(),
            mgmt_peers: StrMap::new(),
            dns_injected: false,
            wifi_loaded: false,
            purge: false,
        })
    }

    /// Environment seeded from a running lab (apply mode): the lab's name,
    /// its runtime where `desired` needs none of its own, its namespaces,
    /// containers and processes as recorded, a namespace handle per node
    /// (its container where it has one, else its named namespace), and
    /// purge on.
    pub fn from_running(running: RunningState, desired: Topology, podman_works: bool, docker_works: bool)
        -> (r: Result<Self, Error>)
        requires
            desired.wf(),
            running.namespace_names.wf(),
            running.containers.wf(),
        ensures
            needs_runtime(desired) && runtime_pick(runtime_choice(desired), podman_works, docker_works) is None
                <==> r is Err,
            r matches Ok(env) ==> {
                &&& env.lab == running.name
                &&& env.topology == desired
                &&& match env.runtime {
                    Some(rt) => if needs_runtime(desired) {
                        runtime_pick(runtime_choice(desired), podman_works, docker_works) == Some(rt.spec_binary())
                    } else {
                        running.runtime_binary matches Some(b) && rt.spec_binary() == b@
                    },
                    None => !needs_runtime(desired) && running.runtime_binary is None,
                }
                &&& ns_ok(env.ns, running.namespace_names, running.containers)
                &&& env.namespace_names == running.namespace_names
                &&& env.containers == running.containers
                &&& env.pids == running.pids
                &&& env.starttimes == running.starttimes
                &&& env.exec_pids == running.exec_pids
                &&& env.process_logs == running.process_logs
                &&& env.mgmt_peers == running.mgmt_peers
                &&& env.dns_injected == running.dns_injected
                &&& env.wifi_loaded == running.wifi_loaded
                &&& env.purge
            },
            r matches Err(e) ==> e is DeployFailed,
    {
        let mut env = match Self::for_deploy(desired, podman_works, docker_works) {
            Ok(e) => e,
            Err(e) => return Err(e),
        };
        env.lab = running.name;
        if env.runtime.is_none() {
            match &running.runtime_binary {
                Some(bin) => { env.runtime = Some(Runtime::with_binary(bin.as_str())); },
                None => {},
            }
        }
        let ns = seed_ns(&running.namespace_names, &running.containers);
        env.ns = ns;
        env.namespace_names = running.namespace_names;
        env.containers = running.containers;
        env.pids = running.pids;
        env.starttimes = running.starttimes;
        env.exec_pids = running.exec_pids;
        env.process_logs = running.process_logs;
        env.mgmt_peers = running.mgmt_peers;
        env.dns_injected = running.dns_injected;
        env.wifi_loaded = running.wifi_loaded;
        env.purge = true;
        Ok(env)
    }
}

/// The namespace handle of each node (see [`ns_ok`]).
fn seed_ns(names: &StrMap<String>, cs: &StrMap<ContainerInfo>) -> (r: StrMap<NsRef>)
    requires
        names.wf(),
        cs.wf(),
    ensures
        ns_ok(r, *names, *cs),
{
    proof { names.lemma_view(); cs.lemma_view(); }
    let mut ns: StrMap<NsRef> = StrMap::new();
    let mut i: usize = 0;
    while i < names.len()
        invariant
            i <= names.keys().len(),
            names.wf(),
            ns.wf(),
            forall|k: Seq<char>| #[trigger] ns.view().contains_key(k) <==> exists|j: int| 0 <= j < i && names.keys()[j] == k,
            forall|k: Seq<char>| #[trigger] ns.view().contains_key(k) ==>
                (ns.view()[k] matches NsRef::Named { name } && name@ == names.view()[k]@),
        decreases names.keys().len() - i,
    {
        proof { names.lemma_view(); }
        let node = names.key_at(i);
        let name = names.value_at(i);
        assert(names.view()[node@] == *name);
        let ghost before = ns.view();
        ns.insert(node.clone(), NsRef::Named { name: name.clone() });
        i = i + 1;
        proof {
            assert forall|k: Seq<char>| #[trigger] ns.view().contains_key(k) <==> exists|j: int| 0 <= j < i
                && names.keys()[j] == k by {
                if exists|j: int| 0 <= j < i && names.keys()[j] == k {
                    let j = choose|j: int| 0 <= j < i && names.keys()[j] == k;
                    if j < i - 1 {
                        assert(before.contains_key(k));
                    }
                }
                if ns.view().contains_key(k) && k != node@ {
                    assert(before.contains_key(k));
                }
            }
        }
    }
    let mut c: usize = 0;
    while c < cs.len()
        invariant
            c <= cs.keys().len(),
            names.wf(),
            cs.wf(),
            ns.wf(),
            forall|k: Seq<char>| #[trigger] ns.view().contains_key(k) <==> names.view().contains_key(k)
                || exists|j: int| 0 <= j < c && cs.keys()[j] == k,
            forall|k: Seq<char>| #[trigger] ns.view().contains_key(k) ==> if exists|j: int| 0 <= j < c && cs.keys()[j] == k {
                ns.view()[k] matches NsRef::Container { id, pid } && id@ == cs.view()[k].id@ && pid == cs.view()[k].pid
            } else {
                ns.view()[k] matches NsRef::Named { name } && name@ == names.view()[k]@
            },
        decreases cs.keys().len() - c,
    {
        proof { cs.lemma_view(); names.lemma_view(); }
        let node = cs.key_at(c);
        let info = cs.value_at(c);
        assert(cs.view()[node@] == *info);
        let ghost before = ns.view();
        ns.insert(node.clone(), NsRef::Container { id: info.id.clone(), pid: info.pid });
        c = c + 1;
        proof {
            assert forall|k: Seq<char>| #[trigger] ns.view().contains_key(k) <==> names.view().contains_key(k)
                || exists|j: int| 0 <= j < c && cs.keys()[j] == k by {
                if exists|j: int| 0 <= j < c && cs.keys()[j] == k {
                    let j = choose|j: int| 0 <= j < c && cs.keys()[j] == k;
                    if j < c - 1 {
                        assert(before.contains_key(k));
                    }
                }
                if ns.view().contains_key(k) && k != node@ {
                    assert(before.contains_key(k));
                }
            }
            assert forall|k: Seq<char>| #[trigger] ns.view().contains_key(k) implies
                if exists|j: int| 0 <= j < c && cs.keys()[j] == k {
                    ns.view()[k] matches NsRef::Container { id, pid } && id@ == cs.view()[k].id@ && pid == cs.view()[k].pid
                } else {
                    ns.view()[k] matches NsRef::Named { name } && name@ == names.view()[k]@
                } by {
                if k != node@ {
                    assert(before.contains_key(k));
                    if exists|j: int| 0 <= j < c && cs.keys()[j] == k {
                        let j = choose|j: int| 0 <= j < c && cs.keys()[j] == k;
                        assert(j < c - 1);
                    }
                } else {
                    assert(cs.keys()[c - 1] == k);
                }
            }
        }
    }
    proof {
        assert forall|k: Seq<char>| #[trigger] ns.view().contains_key(k)
            <==> names.view().contains_key(k) || cs.view().contains_key(k) by {
            if cs.view().contains_key(k) {
                let j = choose|j: int| 0 <= j < cs.keys().len() && cs.keys()[j] == k;
            }
            if exists|j: int| 0 <= j < c && cs.keys()[j] == k {
                let j = choose|j: int| 0 <= j < c && cs.keys()[j] == k;
                assert(cs.view().contains_key(cs.keys()[j]));
            }
        }
        assert forall|k: Seq<char>| #[trigger] ns.view().contains_key(k) implies (if cs.view().contains_key(k) {
            ns.view()[k] matches NsRef::Container { id, pid } && id@ == cs.view()[k].id@ && pid == cs.view()[k].pid
        } else {
            ns.view()[k] matches NsRef::Named { name } && name@ == names.view()[k]@
        }) by {
            if cs.view().contains_key(k) {
                let j = choose|j: int| 0 <= j < cs.keys().len() && cs.keys()[j] == k;
            }
            if exists|j: int| 0 <= j < c && cs.keys()[j] == k {
                let j = choose|j: int| 0 <= j < c && cs.keys()[j] == k;
                assert(cs.view().contains_key(cs.keys()[j]));
            }
        }
    }
    ns
}

} // verus!
