//! Container nodes: choosing the runtime (docker or podman), the options a
//! container is created with, the runtime's `run` command line, and reading
//! back the init PID it reports.
//!
//! Running the runtime binary is left to the caller; everything here
//! computes from what the caller observed.
use vstd::prelude::*;
use crate::error::{Error, message};
use crate::map::StrMap;
use crate::text::{
    push_str, push_char, to_chars, owned, trim, trim_chars, dec, dec_chars, debug_str,
};
use crate::types::{ContainerRuntime, Node, strs, ostr};

verus! {

/// Container runtime wrapper that shells out to docker/podman CLI.
#[derive(Debug, Clone)]
pub struct Runtime {
    /// Path to the runtime binary ("docker" or "podman").
    binary: String,
}

/// Information about a created container.
#[derive(Debug, Clone)]
pub struct ContainerInfo {
    /// Container ID (full SHA).
    pub id: String,
    /// Container name.
    pub name: String,
    /// Init process PID in the host PID namespace.
    pub pid: u32,
}

impl Runtime {
    /// The runtime binary's name.
    pub closed spec fn spec_binary(&self) -> Seq<char> {
        self.binary@
    }

    /// Select the runtime for `rt`, given whether `podman version` and
    /// `docker version` succeed: auto-detection prefers podman, then
    /// docker; an explicit choice must itself work.
    pub fn new(rt: &ContainerRuntime, podman_works: bool, docker_works: bool) -> (r: Result<Self, Error>)
        ensures
            match *rt {
                ContainerRuntime::Auto => if podman_works {
                    r matches Ok(x) && x.spec_binary() == "podman"@
                } else if docker_works {
                    r matches Ok(x) && x.spec_binary() == "docker"@
                } else {
                    r matches Err(Error::DeployFailed(m))
                        && m@ == "no container runtime found: install docker or podman"@
                },
                ContainerRuntime::Docker => if docker_works {
                    r matches Ok(x) && x.spec_binary() == "docker"@
                } else {
                    r matches Err(Error::DeployFailed(m))
                        && m@ == "container runtime '"@ + "docker"@ + "' not found or not working"@
                },
                ContainerRuntime::Podman => if podman_works {
                    r matches Ok(x) && x.spec_binary() == "podman"@
                } else {
                    r matches Err(Error::DeployFailed(m))
                        && m@ == "container runtime '"@ + "podman"@ + "' not found or not working"@
                },
            },
    {
        match rt {
            ContainerRuntime::Auto => {
                if podman_works {
                    Ok(Runtime { binary: owned("podman") })
                } else if docker_works {
                    Ok(Runtime { binary: owned("docker") })
                } else {
                    Err(Error::DeployFailed(owned("no container runtime found: install docker or podman")))
                }
            },
            ContainerRuntime::Docker => Self::require("docker", docker_works),
            ContainerRuntime::Podman => Self::require("podman", podman_works),
        }
    }

    fn require(binary: &str, works: bool) -> (r: Result<Self, Error>)
        ensures
            works ==> (r matches Ok(x) && x.spec_binary() == binary@),
            !works ==> (r matches Err(Error::DeployFailed(m))
                && m@ == "container runtime '"@ + binary@ + "' not found or not working"@),
    {
        if works {
            Ok(Runtime { binary: owned(binary) })
        } else {
            let mut m = String::new();
            push_str(&mut m, "container runtime '");
            push_str(&mut m, binary);
            push_str(&mut m, "' not found or not working");
            Err(Error::DeployFailed(m))
        }
    }

    /// Wrap an already-selected runtime binary without probing it.
    pub fn with_binary(binary: &str) -> (r: Self)
        ensures
            r.spec_binary() == binary@,
    {
        Runtime { binary: owned(binary) }
    }

    /// Get the runtime binary name.
    pub fn binary(&self) -> (b: &str)
        ensures
            b@ == self.spec_binary(),
    {
        self.binary.as_str()
    }
}

// ─── The reported PID ───────────────────────────────────────────────

/// Why text is not a `u32`, as std's integer parser reports it.
#[derive(Debug, Clone, Copy, PartialEq, Eq, Structural)]
pub enum IntError {
    Empty,
    InvalidDigit,
    PosOverflow,
}

/// The value of a decimal digit character.
pub open spec fn digit_value(c: char) -> int {
    c as int - '0' as int
}

pub open spec fn is_digit(c: char) -> bool {
    '0' <= c && c <= '9'
}

/// Left-to-right reading of the digits `ds[0..n]`: the value, or the first
/// error met (a non-digit, or a value past `u32::MAX`).
pub open spec fn read_digits(ds: Seq<char>, n: int) -> Result<int, IntError>
    decreases n,
{
    if n <= 0 {
        Ok(0)
    } else {
        match read_digits(ds, n - 1) {
            Err(e) => Err(e),
            Ok(v) => if !is_digit(ds[n - 1]) {
                Err(IntError::InvalidDigit)
            } else if v * 10 + digit_value(ds[n - 1]) > u32::MAX {
                Err(IntError::PosOverflow)
            } else {
                Ok(v * 10 + digit_value(ds[n - 1]))
            },
        }
    }
}

/// `u32` parsing of text: an optional `+`, then at least one digit.
pub open spec fn parse_u32_spec(s: Seq<char>) -> Result<int, IntError> {
    if s.len() == 0 {
        Err(IntError::Empty)
    } else if s[0] == '+' {
        if s.len() == 1 {
            Err(IntError::InvalidDigit)
        } else {
            read_digits(s.skip(1), s.len() - 1)
        }
    } else {
        read_digits(s, s.len() as int)
    }
}

/// The message std gives for each parse failure.
pub open spec fn int_error_text(e: IntError) -> Seq<char> {
    match e {
        IntError::Empty => "cannot parse integer from empty string"@,
        IntError::InvalidDigit => "invalid digit found in string"@,
        IntError::PosOverflow => "number too large to fit in target type"@,
    }
}

fn read_digits_exec(ds: &[char]) -> (r: Result<u32, IntError>)
    ensures
        match read_digits(ds@, ds@.len() as int) {
            Ok(v) => r matches Ok(x) && x == v,
            Err(e) => r == Err::<u32, IntError>(e),
        },
{
    let mut v: u32 = 0;
    let mut i: usize = 0;
    while i < ds.len()
        invariant
            i <= ds@.len(),
            read_digits(ds@, i as int) == Ok::<int, IntError>(v as int),
        decreases ds@.len() - i,
    {
        let c = ds[i];
        if !('0' <= c && c <= '9') {
            proof { lemma_read_stops(ds@, i as int + 1); }
            return Err(IntError::InvalidDigit);
        }
        let d = (c as u32) - ('0' as u32);
        if v > 429496729 || (v == 429496729 && d > 5) {
            proof { lemma_read_stops(ds@, i as int + 1); }
            return Err(IntError::PosOverflow);
        }
        v = v * 10 + d;
        i = i + 1;
    }
    Ok(v)
}

/// Once the reading fails, it stays failed with the same error.
proof fn lemma_read_stops(ds: Seq<char>, n: int)
    requires
        0 < n <= ds.len(),
        read_digits(ds, n) is Err,
    ensures
        read_digits(ds, ds.len() as int) == read_digits(ds, n),
    decreases ds.len() - n,
{
    if n < ds.len() {
        lemma_read_stops(ds, n + 1);
    }
}

/// Parse text as a `u32`, as std's `str::parse::<u32>` does.
pub fn parse_u32(s: &[char]) -> (r: Result<u32, IntError>)
    ensures
        match parse_u32_spec(s@) {
            Ok(v) => r matches Ok(x) && x == v,
            Err(e) => r == Err::<u32, IntError>(e),
        },
{
    if s.len() == 0 {
        return Err(IntError::Empty);
    }
    if s[0] == '+' {
        if s.len() == 1 {
            return Err(IntError::InvalidDigit);
        }
        let rest = crate::text::skip_chars(s, 1);
        read_digits_exec(rest.as_slice())
    } else {
        read_digits_exec(s)
    }
}

fn int_error_string(e: IntError) -> (s: String)
    ensures
        s@ == int_error_text(e),
{
    match e {
        IntError::Empty => owned("cannot parse integer from empty string"),
        IntError::InvalidDigit => owned("invalid digit found in string"),
        IntError::PosOverflow => owned("number too large to fit in target type"),
    }
}

/// The PID that `inspect --format '{{.State.Pid}}'` printed for container
/// `id`, or the error: the trimmed text must be a `u32`, and not `0` (a
/// container that is not running).
pub open spec fn pid_result(raw: Seq<char>, id: Seq<char>) -> Result<int, Seq<char>> {
    let t = trim(raw);
    match parse_u32_spec(t) {
        Err(e) => Err("invalid PID '"@ + t + "' for container '"@ + id + "': "@ + int_error_text(e)),
        Ok(v) => if v == 0 {
            Err("container '"@ + id
                + "' is not running (.State.Pid == 0): container exited immediately; check its logs"@)
        } else {
            Ok(v)
        },
    }
}

/// Parse the output of `inspect --format '{{.State.Pid}}'`.
///
/// Both docker and podman report `0` for a container that is not running
/// (created-but-exited, stopped, or restarting); that is rejected.
pub fn parse_pid(raw: &str, id: &str) -> (r: Result<u32, Error>)
    ensures
        match pid_result(raw@, id@) {
            Ok(v) => r matches Ok(x) && x == v,
            Err(m) => r matches Err(Error::DeployFailed(t)) && t@ == m,
        },
{
    let cs = to_chars(raw);
    let t = trim_chars(cs.as_slice());
    match parse_u32(t.as_slice()) {
        Err(e) => {
            let mut m = String::new();
            push_str(&mut m, "invalid PID '");
            let ts = crate::text::string_from_chars(t.as_slice());
            push_str(&mut m, ts.as_str());
            push_str(&mut m, "' for container '");
            push_str(&mut m, id);
            push_str(&mut m, "': ");
            push_str(&mut m, int_error_string(e).as_str());
            Err(Error::DeployFailed(m))
        },
        Ok(pid) => {
            if pid == 0 {
                let mut m = String::new();
                push_str(&mut m, "container '");
                push_str(&mut m, id);
                push_str(&mut m,
                    "' is not running (.State.Pid == 0): container exited immediately; check its logs");
                Err(Error::DeployFailed(m))
            } else {
                Ok(pid)
            }
        },
    }
}

// ─── Creating a container ───────────────────────────────────────────

/// Options for container creation.
#[derive(Debug, Clone)]
pub struct CreateOpts {
    /// Command to run (overrides image CMD).
    pub cmd: Option<Vec<String>>,
    /// Environment variables.
    pub env: StrMap<String>,
    /// Bind mounts in "host:container" format.
    pub volumes: Vec<String>,
    /// CPU limit (e.g., "1.5").
    pub cpu: Option<String>,
    /// Memory limit (e.g., "512m").
    pub memory: Option<String>,
    /// Run in privileged mode.
    pub privileged: bool,
    /// Linux capabilities to add.
    pub cap_add: Vec<String>,
    /// Linux capabilities to drop.
    pub cap_drop: Vec<String>,
    /// Override entrypoint.
    pub entrypoint: Option<String>,
    /// Container hostname.
    pub hostname: Option<String>,
    /// Working directory.
    pub workdir: Option<String>,
    /// Container labels.
    pub labels: Vec<String>,
    /// Extra /etc/hosts entries in "hostname:ip" format (passed as --add-host).
    pub extra_hosts: Vec<String>,
    /// `config HOST CONTAINER` pairs, mounted read-only.
    pub configs: Vec<(String, String)>,
    /// Host file of `KEY=VALUE` lines, passed through as `--env-file`.
    pub env_file: Option<String>,
    /// Overlay directory: each top-level entry is bind-mounted at the
    /// corresponding absolute path inside the container.
    pub overlay: Option<String>,
}

impl Default for CreateOpts {
    fn default() -> (r: Self)
        ensures
            r.cmd is None,
            r.env.wf(),
            r.env.keys().len() == 0,
            r.volumes@.len() == 0,
            r.cpu is None,
            r.memory is None,
            !r.privileged,
            r.cap_add@.len() == 0,
            r.cap_drop@.len() == 0,
            r.entrypoint is None,
            r.hostname is None,
            r.workdir is None,
            r.labels@.len() == 0,
            r.extra_hosts@.len() == 0,
            r.configs@.len() == 0,
            r.env_file is None,
            r.overlay is None,
    {
        CreateOpts {
            cmd: None,
            env: StrMap::new(),
            volumes: Vec::new(),
            cpu: None,
            memory: None,
            privileged: false,
            cap_add: Vec::new(),
            cap_drop: Vec::new(),
            entrypoint: None,
            hostname: None,
            workdir: None,
            labels: Vec::new(),
            extra_hosts: Vec::new(),
            configs: Vec::new(),
            env_file: None,
            overlay: None,
        }
    }
}

/// The characters of each string of an optional list.
pub open spec fn opt_strs(o: Option<Vec<String>>) -> Option<Seq<Seq<char>>> {
    match o {
        Some(v) => Some(strs(v@)),
        None => None,
    }
}

/// A copy of a list of strings.
pub fn copy_strs(v: &[String]) -> (r: Vec<String>)
    ensures
        r@ == v@,
{
    let mut r: Vec<String> = Vec::new();
    let mut i: usize = 0;
    while i < v.len()
        invariant
            i <= v@.len(),
            r@ == v@.take(i as int),
        decreases v@.len() - i,
    {
        r.push(v[i].clone());
        i = i + 1;
        assert(r@ =~= v@.take(i as int));
    }
    assert(r@ =~= v@);
    r
}

/// Container create options from a node's fields.
pub fn build_create_opts(node: &Node, extra_hosts: &[String]) -> (o: CreateOpts)
    requires
        node.env matches Some(e) ==> e.wf(),
    ensures
        opt_strs(o.cmd) == opt_strs(node.cmd),
        match node.env {
            Some(e) => o.env.view() == e.view() && o.env.keys() == e.keys(),
            None => o.env.keys().len() == 0,
        },
        o.env.wf(),
        o.volumes@ == (match node.volumes { Some(v) => v@, None => Seq::<String>::empty() }),
        o.cpu == node.cpu,
        o.memory == node.memory,
        o.privileged == node.privileged,
        o.cap_add@ == node.cap_add@,
        o.cap_drop@ == node.cap_drop@,
        o.entrypoint == node.entrypoint,
        o.hostname == node.hostname,
        o.workdir == node.workdir,
        o.labels@ == node.labels@,
        o.extra_hosts@ == extra_hosts@,
        o.configs@.len() == 0,
        o.env_file is None,
        o.overlay is None,
{
    let cmd = match &node.cmd {
        Some(c) => {
            let v = copy_strs(c.as_slice());
            Some(v)
        },
        None => None,
    };
    let env = match &node.env {
        Some(e) => e.copy(),
        None => StrMap::new(),
    };
    let volumes = match &node.volumes {
        Some(v) => copy_strs(v.as_slice()),
        None => Vec::new(),
    };
    CreateOpts {
        cmd,
        env,
        volumes,
        cpu: crate::types::copy_opt(&node.cpu),
        memory: crate::types::copy_opt(&node.memory),
        privileged: node.privileged,
        cap_add: copy_strs(node.cap_add.as_slice()),
        cap_drop: copy_strs(node.cap_drop.as_slice()),
        entrypoint: crate::types::copy_opt(&node.entrypoint),
        hostname: crate::types::copy_opt(&node.hostname),
        workdir: crate::types::copy_opt(&node.workdir),
        labels: copy_strs(node.labels.as_slice()),
        extra_hosts: copy_strs(extra_hosts),
        configs: Vec::new(),
        env_file: None,
        overlay: None,
    }
}

/// The characters of string pairs.
pub open spec fn pair_strs(v: Seq<(String, String)>) -> Seq<(Seq<char>, Seq<char>)> {
    v.map_values(|p: (String, String)| (p.0@, p.1@))
}

/// Create options as characters: what two option sets are compared by.
pub struct CreateOptsView {
    pub cmd: Option<Seq<Seq<char>>>,
    pub env_keys: Seq<Seq<char>>,
    pub env_vals: Seq<Seq<char>>,
    pub volumes: Seq<Seq<char>>,
    pub cpu: Option<Seq<char>>,
    pub memory: Option<Seq<char>>,
    pub privileged: bool,
    pub cap_add: Seq<Seq<char>>,
    pub cap_drop: Seq<Seq<char>>,
    pub entrypoint: Option<Seq<char>>,
    pub hostname: Option<Seq<char>>,
    pub workdir: Option<Seq<char>>,
    pub labels: Seq<Seq<char>>,
    pub extra_hosts: Seq<Seq<char>>,
    pub configs: Seq<(Seq<char>, Seq<char>)>,
    pub env_file: Option<Seq<char>>,
    pub overlay: Option<Seq<char>>,
}

impl View for CreateOpts {
    type V = CreateOptsView;

    open spec fn view(&self) -> CreateOptsView {
        CreateOptsView {
            cmd: opt_strs(self.cmd),
            env_keys: self.env.keys(),
            env_vals: strs(self.env.vals()),
            volumes: strs(self.volumes@),
            cpu: ostr(self.cpu),
            memory: ostr(self.memory),
            privileged: self.privileged,
            cap_add: strs(self.cap_add@),
            cap_drop: strs(self.cap_drop@),
            entrypoint: ostr(self.entrypoint),
            hostname: ostr(self.hostname),
            workdir: ostr(self.workdir),
            labels: strs(self.labels@),
            extra_hosts: strs(self.extra_hosts@),
            configs: pair_strs(self.configs@),
            env_file: ostr(self.env_file),
            overlay: ostr(self.overlay),
        }
    }
}

/// A copy of a list of string pairs.
pub fn copy_pairs(v: &[(String, String)]) -> (r: Vec<(String, String)>)
    ensures
        r@ == v@,
{
    let mut r: Vec<(String, String)> = Vec::new();
    let mut i: usize = 0;
    while i < v.len()
        invariant
            i <= v@.len(),
            r@ == v@.take(i as int),
        decreases v@.len() - i,
    {
        r.push((v[i].0.clone(), v[i].1.clone()));
        i = i + 1;
        assert(r@ =~= v@.take(i as int));
    }
    assert(r@ =~= v@);
    r
}

/// Whether two lists hold the same strings, in the same order.
pub fn strs_eq(a: &[String], b: &[String]) -> (r: bool)
    ensures
        r == (strs(a@) == strs(b@)),
{
    if a.len() != b.len() {
        return false;
    }
    let mut i: usize = 0;
    while i < a.len()
        invariant
            i <= a@.len(),
            a@.len() == b@.len(),
            forall|j: int| 0 <= j < i ==> a@[j]@ == b@[j]@,
        decreases a@.len() - i,
    {
        if !crate::text::str_eq(a[i].as_str(), b[i].as_str()) {
            assert(strs(a@)[i as int] != strs(b@)[i as int]);
            return false;
        }
        i = i + 1;
    }
    assert(strs(a@) =~= strs(b@));
    true
}

/// Whether two optional lists hold the same strings.
pub fn opt_strs_eq(a: &Option<Vec<String>>, b: &Option<Vec<String>>) -> (r: bool)
    ensures
        r == (opt_strs(*a) == opt_strs(*b)),
{
    match (a, b) {
        (Some(x), Some(y)) => strs_eq(x.as_slice(), y.as_slice()),
        (None, None) => true,
        _ => false,
    }
}

/// Whether two lists hold the same string pairs, in the same order.
pub fn pairs_eq(a: &[(String, String)], b: &[(String, String)]) -> (r: bool)
    ensures
        r == (pair_strs(a@) == pair_strs(b@)),
{
    if a.len() != b.len() {
        return false;
    }
    let mut i: usize = 0;
    while i < a.len()
        invariant
            i <= a@.len(),
            a@.len() == b@.len(),
            forall|j: int| 0 <= j < i ==> a@[j].0@ == b@[j].0@ && a@[j].1@ == b@[j].1@,
        decreases a@.len() - i,
    {
        if !crate::text::str_eq(a[i].0.as_str(), b[i].0.as_str())
            || !crate::text::str_eq(a[i].1.as_str(), b[i].1.as_str()) {
            assert(pair_strs(a@)[i as int] != pair_strs(b@)[i as int]);
            return false;
        }
        i = i + 1;
    }
    assert(pair_strs(a@) =~= pair_strs(b@));
    true
}

/// Whether two string tables hold the same entries, in the same order.
pub fn str_maps_eq(a: &StrMap<String>, b: &StrMap<String>) -> (r: bool)
    ensures
        r == (a.keys() == b.keys() && strs(a.vals()) == strs(b.vals())),
{
    proof {
        a.lemma_lens();
        b.lemma_lens();
    }
    if a.len() != b.len() {
        return false;
    }
    let mut i: usize = 0;
    while i < a.len()
        invariant
            i <= a.keys().len(),
            a.keys().len() == b.keys().len(),
            a.vals().len() == a.keys().len(),
            b.vals().len() == b.keys().len(),
            forall|j: int| 0 <= j < i ==> a.keys()[j] == b.keys()[j] && a.vals()[j]@ == b.vals()[j]@,
        decreases a.keys().len() - i,
    {
        let same = crate::text::str_eq(a.key_at(i).as_str(), b.key_at(i).as_str())
            && crate::text::str_eq(a.value_at(i).as_str(), b.value_at(i).as_str());
        if !same {
            assert(a.keys()[i as int] != b.keys()[i as int] || strs(a.vals())[i as int] != strs(b.vals())[i as int]);
            return false;
        }
        i = i + 1;
    }
    assert(a.keys() =~= b.keys());
    assert forall|j: int| 0 <= j < a.vals().len() implies #[trigger] strs(a.vals())[j] == strs(b.vals())[j] by {
        assert(a.keys()[j] == b.keys()[j] && a.vals()[j]@ == b.vals()[j]@);
    }
    assert(strs(a.vals()) =~= strs(b.vals()));
    true
}

impl CreateOpts {
    /// A copy with the same options.
    pub fn copy(&self) -> (r: Self)
        ensures
            r@ == self@,
    {
        let cmd = match &self.cmd {
            Some(c) => Some(copy_strs(c.as_slice())),
            None => None,
        };
        CreateOpts {
            cmd,
            env: self.env.copy(),
            volumes: copy_strs(self.volumes.as_slice()),
            cpu: crate::types::copy_opt(&self.cpu),
            memory: crate::types::copy_opt(&self.memory),
            privileged: self.privileged,
            cap_add: copy_strs(self.cap_add.as_slice()),
            cap_drop: copy_strs(self.cap_drop.as_slice()),
            entrypoint: crate::types::copy_opt(&self.entrypoint),
            hostname: crate::types::copy_opt(&self.hostname),
            workdir: crate::types::copy_opt(&self.workdir),
            labels: copy_strs(self.labels.as_slice()),
            extra_hosts: copy_strs(self.extra_hosts.as_slice()),
            configs: copy_pairs(self.configs.as_slice()),
            env_file: crate::types::copy_opt(&self.env_file),
            overlay: crate::types::copy_opt(&self.overlay),
        }
    }

    /// Whether two option sets are the same.
    pub fn same(&self, other: &Self) -> (r: bool)
        ensures
            r == (self@ == other@),
    {
        opt_strs_eq(&self.cmd, &other.cmd)
            && str_maps_eq(&self.env, &other.env)
            && strs_eq(self.volumes.as_slice(), other.volumes.as_slice())
            && crate::text::opt_str_eq(&self.cpu, &other.cpu)
            && crate::text::opt_str_eq(&self.memory, &other.memory)
            && self.privileged == other.privileged
            && strs_eq(self.cap_add.as_slice(), other.cap_add.as_slice())
            && strs_eq(self.cap_drop.as_slice(), other.cap_drop.as_slice())
            && crate::text::opt_str_eq(&self.entrypoint, &other.entrypoint)
            && crate::text::opt_str_eq(&self.hostname, &other.hostname)
            && crate::text::opt_str_eq(&self.workdir, &other.workdir)
            && strs_eq(self.labels.as_slice(), other.labels.as_slice())
            && strs_eq(self.extra_hosts.as_slice(), other.extra_hosts.as_slice())
            && pairs_eq(self.configs.as_slice(), other.configs.as_slice())
            && crate::text::opt_str_eq(&self.env_file, &other.env_file)
            && crate::text::opt_str_eq(&self.overlay, &other.overlay)
    }
}

/// `base` joined with `p` as a path: `p` itself where it is absolute, else
/// `p` after `base` and a separator (none added after a trailing one).
pub open spec fn path_join(base: Seq<char>, p: Seq<char>) -> Seq<char> {
    if p.len() > 0 && p[0] == '/' {
        p
    } else if base.len() > 0 && base.last() != '/' {
        base + seq!['/'] + p
    } else {
        base + p
    }
}

/// `a` joined with `b` as a path.
pub fn join_path(a: &str, b: &str) -> (s: String)
    ensures
        s@ == path_join(a@, b@),
{
    let bc = to_chars(b);
    if bc.len() > 0 && bc[0] == '/' {
        return owned(b);
    }
    let ac = to_chars(a);
    let mut s = owned(a);
    if ac.len() > 0 && ac[ac.len() - 1] != '/' {
        push_char(&mut s, '/');
    }
    push_str(&mut s, b);
    s
}

/// A host path made absolute against the working directory `cwd` (where
/// it could be read); an absolute path stays as it is.
pub open spec fn abs_path(p: Seq<char>, cwd: Option<Seq<char>>) -> Seq<char> {
    if p.len() > 0 && p[0] == '/' {
        p
    } else {
        match cwd {
            Some(c) => path_join(c, p),
            None => p,
        }
    }
}

/// Make a host path absolute, resolving relatives against `cwd`.
///
/// Docker and podman read a relative `--volume` source as the name of a
/// named volume, not as a bind mount.
pub fn abs_host_path(p: &str, cwd: Option<&str>) -> (s: String)
    ensures
        s@ == abs_path(p@, crate::dns::opt_view(cwd)),
{
    let pc = to_chars(p);
    if pc.len() > 0 && pc[0] == '/' {
        return owned(p);
    }
    match cwd {
        Some(c) => join_path(c, p),
        None => owned(p),
    }
}

/// `[flag, v]` for each `v` of `vs`.
pub open spec fn flagged(flag: Seq<char>, vs: Seq<Seq<char>>) -> Seq<Seq<char>>
    decreases vs.len(),
{
    if vs.len() == 0 {
        Seq::empty()
    } else {
        flagged(flag, vs.drop_last()) + seq![flag, vs.last()]
    }
}

/// `[flag, v]` where there is a `v`.
pub open spec fn opt_flag(flag: Seq<char>, o: Option<Seq<char>>) -> Seq<Seq<char>> {
    match o {
        Some(v) => seq![flag, v],
        None => Seq::empty(),
    }
}

/// The capability arguments: `--privileged`, or an add for each added
/// capability (`NET_ADMIN` and `NET_RAW` where none is listed) and a drop
/// for each dropped one.
pub open spec fn cap_args(privileged: bool, add: Seq<Seq<char>>, drop: Seq<Seq<char>>) -> Seq<Seq<char>> {
    if privileged {
        seq!["--privileged"@]
    } else {
        let caps = if add.len() == 0 { seq!["NET_ADMIN"@, "NET_RAW"@] } else { add };
        caps.map_values(|c: Seq<char>| "--cap-add="@ + c) + drop.map_values(|c: Seq<char>| "--cap-drop="@ + c)
    }
}

/// `KEY=VALUE` for each environment variable, in key order.
pub open spec fn env_pairs(ks: Seq<Seq<char>>, vs: Seq<String>) -> Seq<Seq<char>> {
    Seq::new(ks.len(), |i: int| ks[i] + seq!['='] + vs[i]@)
}

/// The read-only mount of each `config HOST CONTAINER` pair.
pub open spec fn config_mounts(cs: Seq<(String, String)>, cwd: Option<Seq<char>>) -> Seq<Seq<char>> {
    cs.map_values(|c: (String, String)| abs_path(c.0@, cwd) + seq![':'] + c.1@ + ":ro"@)
}

/// The arguments of the runtime's `run` for container `name` of `image`:
/// detached, without networking, then capabilities, limits, container
/// options, environment, mounts, extra hosts, the image and its command.
/// `mounts` are the overlay directory's entry mounts.
pub open spec fn run_args(name: Seq<char>, image: Seq<char>, o: CreateOpts, cwd: Option<Seq<char>>, mounts: Seq<Seq<char>>) -> Seq<Seq<char>> {
    seq!["run"@, "-d"@, "--name"@, name, "--network=none"@]
        + cap_args(o.privileged, strs(o.cap_add@), strs(o.cap_drop@))
        + opt_flag("--cpus"@, ostr(o.cpu))
        + opt_flag("--memory"@, ostr(o.memory))
        + opt_flag("--entrypoint"@, ostr(o.entrypoint))
        + opt_flag("--hostname"@, ostr(o.hostname))
        + opt_flag("--workdir"@, ostr(o.workdir))
        + flagged("--label"@, strs(o.labels@))
        + flagged("--env"@, env_pairs(o.env.keys(), o.env.vals()))
        + flagged("--volume"@, strs(o.volumes@))
        + flagged("--volume"@, config_mounts(o.configs@, cwd))
        + opt_flag("--env-file"@, match o.env_file {
            Some(f) => Some(abs_path(f@, cwd)),
            None => None,
        })
        + (if o.overlay is Some { flagged("--volume"@, mounts) } else { Seq::empty() })
        + flagged("--add-host"@, strs(o.extra_hosts@))
        + seq![image]
        + match o.cmd {
            Some(c) => strs(c@),
            None => Seq::empty(),
        }
}

fn push_arg(args: &mut Vec<String>, a: String)
    ensures
        strs(final(args)@) == strs(old(args)@).push(a@),
{
    let ghost before = args@;
    args.push(a);
    assert(strs(args@) =~= strs(before).push(a@));
}

fn push_flagged(args: &mut Vec<String>, flag: &str, vs: &[String])
    ensures
        strs(final(args)@) == strs(old(args)@) + flagged(flag@, strs(vs@)),
{
    let ghost start = strs(args@);
    let mut i: usize = 0;
    while i < vs.len()
        invariant
            i <= vs@.len(),
            strs(args@) == start + flagged(flag@, strs(vs@.take(i as int))),
        decreases vs@.len() - i,
    {
        push_arg(args, owned(flag));
        push_arg(args, vs[i].clone());
        i = i + 1;
        assert(strs(vs@.take(i as int)).drop_last() =~= strs(vs@.take(i - 1)));
        assert(strs(args@) =~= start + flagged(flag@, strs(vs@.take(i as int))));
    }
    assert(vs@.take(i as int) =~= vs@);
}

fn push_opt(args: &mut Vec<String>, flag: &str, o: &Option<String>)
    ensures
        strs(final(args)@) == strs(old(args)@) + opt_flag(flag@, ostr(*o)),
{
    let ghost start = strs(args@);
    match o {
        Some(v) => {
            push_arg(args, owned(flag));
            push_arg(args, v.clone());
            assert(strs(args@) =~= start + opt_flag(flag@, ostr(*o)));
        },
        None => {
            assert(strs(args@) =~= start + opt_flag(flag@, ostr(*o)));
        },
    }
}

fn push_prefixed(args: &mut Vec<String>, p: &str, vs: &[String])
    ensures
        strs(final(args)@) == strs(old(args)@) + strs(vs@).map_values(|c: Seq<char>| p@ + c),
{
    let ghost start = strs(args@);
    let mut i: usize = 0;
    while i < vs.len()
        invariant
            i <= vs@.len(),
            strs(args@) == start + strs(vs@.take(i as int)).map_values(|c: Seq<char>| p@ + c),
        decreases vs@.len() - i,
    {
        let mut a = owned(p);
        push_str(&mut a, vs[i].as_str());
        push_arg(args, a);
        i = i + 1;
        assert(strs(args@) =~= start + strs(vs@.take(i as int)).map_values(|c: Seq<char>| p@ + c));
    }
    assert(vs@.take(i as int) =~= vs@);
}

/// The arguments of the runtime's `run` for container `name` of `image`
/// with options `opts`; relative host paths are resolved against `cwd`,
/// and `mounts` are the mounts of the overlay directory's entries.
pub fn create_args(name: &str, image: &str, opts: &CreateOpts, cwd: Option<&str>, mounts: &[String]) -> (args: Vec<String>)
    requires
        opts.env.wf(),
    ensures
        strs(args@) == run_args(name@, image@, *opts, crate::dns::opt_view(cwd), strs(mounts@)),
{
    let ghost cwdv = crate::dns::opt_view(cwd);
    let mut args: Vec<String> = Vec::new();
    push_arg(&mut args, owned("run"));
    push_arg(&mut args, owned("-d"));
    push_arg(&mut args, owned("--name"));
    push_arg(&mut args, owned(name));
    push_arg(&mut args, owned("--network=none"));
    assert(strs(args@) =~= seq!["run"@, "-d"@, "--name"@, name@, "--network=none"@]);
    let ghost s0 = strs(args@);
    if opts.privileged {
        push_arg(&mut args, owned("--privileged"));
    } else {
        if opts.cap_add.len() == 0 {
            let defaults: Vec<String> = vec![owned("NET_ADMIN"), owned("NET_RAW")];
            assert(strs(defaults@) =~= seq!["NET_ADMIN"@, "NET_RAW"@]);
            push_prefixed(&mut args, "--cap-add=", defaults.as_slice());
        } else {
            push_prefixed(&mut args, "--cap-add=", opts.cap_add.as_slice());
        }
        push_prefixed(&mut args, "--cap-drop=", opts.cap_drop.as_slice());
    }
    assert(strs(args@) =~= s0 + cap_args(opts.privileged, strs(opts.cap_add@), strs(opts.cap_drop@)));
    push_opt(&mut args, "--cpus", &opts.cpu);
    push_opt(&mut args, "--memory", &opts.memory);
    push_opt(&mut args, "--entrypoint", &opts.entrypoint);
    push_opt(&mut args, "--hostname", &opts.hostname);
    push_opt(&mut args, "--workdir", &opts.workdir);
    push_flagged(&mut args, "--label", opts.labels.as_slice());
    // environment, in key order
    let mut env_args: Vec<String> = Vec::new();
    let mut i: usize = 0;
    proof { opts.env.lemma_view(); }
    while i < opts.env.len()
        invariant
            i <= opts.env.keys().len(),
            opts.env.wf(),
            opts.env.keys().len() == opts.env.vals().len(),
            strs(env_args@) == env_pairs(opts.env.keys(), opts.env.vals()).take(i as int),
        decreases opts.env.keys().len() - i,
    {
        let key = opts.env.key_at(i);
        let val = opts.env.value_at(i);
        let mut a = owned(key.as_str());
        push_char(&mut a, '=');
        push_str(&mut a, val.as_str());
        let ghost before = strs(env_args@);
        let ghost av = a@;
        assert(av == env_pairs(opts.env.keys(), opts.env.vals())[i as int]);
        push_arg(&mut env_args, a);
        i = i + 1;
        assert(strs(env_args@) =~= env_pairs(opts.env.keys(), opts.env.vals()).take(i as int));
    }
    assert(env_pairs(opts.env.keys(), opts.env.vals()).take(i as int) =~= env_pairs(opts.env.keys(), opts.env.vals()));
    push_flagged(&mut args, "--env", env_args.as_slice());
    push_flagged(&mut args, "--volume", opts.volumes.as_slice());
    // read-only config mounts
    let mut cfg: Vec<String> = Vec::new();
    let mut j: usize = 0;
    while j < opts.configs.len()
        invariant
            j <= opts.configs@.len(),
            cwdv == crate::dns::opt_view(cwd),
            strs(cfg@) == config_mounts(opts.configs@, cwdv).take(j as int),
        decreases opts.configs@.len() - j,
    {
        let pair = &opts.configs[j];
        let mut a = abs_host_path(pair.0.as_str(), cwd);
        push_char(&mut a, ':');
        push_str(&mut a, pair.1.as_str());
        push_str(&mut a, ":ro");
        let ghost av = a@;
        assert(av == config_mounts(opts.configs@, cwdv)[j as int]);
        push_arg(&mut cfg, a);
        j = j + 1;
        assert(strs(cfg@) =~= config_mounts(opts.configs@, cwdv).take(j as int));
    }
    assert(config_mounts(opts.configs@, cwdv).take(j as int) =~= config_mounts(opts.configs@, cwdv));
    push_flagged(&mut args, "--volume", cfg.as_slice());
    let env_file = match &opts.env_file {
        Some(f) => Some(abs_host_path(f.as_str(), cwd)),
        None => None,
    };
    push_opt(&mut args, "--env-file", &env_file);
    let ghost s1 = strs(args@);
    if opts.overlay.is_some() {
        push_flagged(&mut args, "--volume", mounts);
    } else {
        assert(strs(args@) =~= s1 + Seq::<Seq<char>>::empty());
    }
    push_flagged(&mut args, "--add-host", opts.extra_hosts.as_slice());
    push_arg(&mut args, owned(image));
    let ghost s2 = strs(args@);
    match &opts.cmd {
        Some(c) => {
            let mut k: usize = 0;
            while k < c.len()
                invariant
                    k <= c@.len(),
                    strs(args@) == s2 + strs(c@.take(k as int)),
                decreases c@.len() - k,
            {
                push_arg(&mut args, c[k].clone());
                k = k + 1;
                assert(strs(args@) =~= s2 + strs(c@.take(k as int)));
            }
            assert(c@.take(k as int) =~= c@);
        },
        None => {
            assert(strs(args@) =~= s2 + Seq::<Seq<char>>::empty());
        },
    }
    assert(strs(args@) =~= run_args(name@, image@, *opts, cwdv, strs(mounts@)));
    args
}

/// WiFi channel number to frequency in MHz (as text for iw); an unknown
/// channel reads as channel 1.
pub open spec fn channel_freq(channel: u32) -> nat {
    if 1 <= channel <= 13 {
        (2407 + 5 * channel) as nat
    } else if channel == 14 {
        2484
    } else if channel == 36 || channel == 40 || channel == 44 || channel == 48 {
        (5000 + 5 * channel) as nat
    } else {
        2412
    }
}

/// Convert WiFi channel number to frequency in MHz (as string for iw).
pub fn freq_from_channel(channel: u32) -> (s: String)
    ensures
        s@ == dec(channel_freq(channel)),
{
    let freq: u64 = match channel {
        1 => 2412,
        2 => 2417,
        3 => 2422,
        4 => 2427,
        5 => 2432,
        6 => 2437,
        7 => 2442,
        8 => 2447,
        9 => 2452,
        10 => 2457,
        11 => 2462,
        12 => 2467,
        13 => 2472,
        14 => 2484,
        36 => 5180,
        40 => 5200,
        44 => 5220,
        48 => 5240,
        _ => 2412,
    };
    crate::text::dec_string(freq)
}


/// `flagged` puts the flag before each value: at even positions the flag,
/// after it the value.
proof fn lemma_flagged_at(flag: Seq<char>, vs: Seq<Seq<char>>)
    ensures
        flagged(flag, vs).len() == 2 * vs.len(),
        forall|j: int| 0 <= j < vs.len() ==> #[trigger] flagged(flag, vs)[2 * j] == flag
            && flagged(flag, vs)[2 * j + 1] == vs[j],
    decreases vs.len(),
{
    if vs.len() > 0 {
        lemma_flagged_at(flag, vs.drop_last());
        let p = flagged(flag, vs.drop_last());
        assert forall|j: int| 0 <= j < vs.len() implies #[trigger] flagged(flag, vs)[2 * j] == flag
            && flagged(flag, vs)[2 * j + 1] == vs[j] by {
            if j < vs.len() - 1 {
                assert(p[2 * j] == flag);
                assert(p[2 * j + 1] == vs.drop_last()[j]);
            }
        }
    }
}

/// A container starts with its environment: for each entry `k -> v` of the
/// options' environment, the run arguments hold `--env` immediately
/// followed by `k=v`, ahead of the image (which the command, if any,
/// follows).
pub proof fn lemma_run_args_env(name: Seq<char>, image: Seq<char>, o: CreateOpts, cwd: Option<Seq<char>>, mounts: Seq<Seq<char>>)
    requires
        o.env.wf(),
    ensures
        ({
            let args = run_args(name, image, o, cwd, mounts);
            let c = match o.cmd { Some(v) => v@.len() as int, None => 0 };
            &&& args[args.len() - c - 1] == image
            &&& forall|k: Seq<char>| #[trigger] o.env.view().contains_key(k) ==> exists|q: int|
                0 <= q && q + 1 < args.len() - c - 1 && #[trigger] args[q] == "--env"@
                    && args[q + 1] == k + seq!['='] + o.env.view()[k]@
        }),
{
    o.env.lemma_view();
    let ev = env_pairs(o.env.keys(), o.env.vals());
    lemma_flagged_at("--env"@, ev);
    let a = seq!["run"@, "-d"@, "--name"@, name, "--network=none"@]
        + cap_args(o.privileged, strs(o.cap_add@), strs(o.cap_drop@))
        + opt_flag("--cpus"@, ostr(o.cpu))
        + opt_flag("--memory"@, ostr(o.memory))
        + opt_flag("--entrypoint"@, ostr(o.entrypoint))
        + opt_flag("--hostname"@, ostr(o.hostname))
        + opt_flag("--workdir"@, ostr(o.workdir))
        + flagged("--label"@, strs(o.labels@));
    let f = flagged("--env"@, ev);
    let rest = flagged("--volume"@, strs(o.volumes@))
        + flagged("--volume"@, config_mounts(o.configs@, cwd))
        + opt_flag("--env-file"@, match o.env_file {
            Some(fl) => Some(abs_path(fl@, cwd)),
            None => None,
        })
        + (if o.overlay is Some { flagged("--volume"@, mounts) } else { Seq::empty() })
        + flagged("--add-host"@, strs(o.extra_hosts@));
    let cmd = match o.cmd { Some(v) => strs(v@), None => Seq::<Seq<char>>::empty() };
    let y = a + f + rest;
    let args = run_args(name, image, o, cwd, mounts);
    assert(args =~= y + seq![image] + cmd);
    let c = match o.cmd { Some(v) => v@.len() as int, None => 0 };
    assert(cmd.len() == c);
    assert(args[y.len() as int] == image);
    assert forall|k: Seq<char>| #[trigger] o.env.view().contains_key(k) implies exists|q: int|
        0 <= q && q + 1 < args.len() - c - 1 && #[trigger] args[q] == "--env"@
            && args[q + 1] == k + seq!['='] + o.env.view()[k]@ by {
        let j = choose|j: int| 0 <= j < o.env.keys().len() && o.env.keys()[j] == k;
        assert(o.env.view()[o.env.keys()[j]] == o.env.vals()[j]);
        assert(ev[j] == k + seq!['='] + o.env.vals()[j]@);
        let q = a.len() + 2 * j;
        assert(f[2 * j] == "--env"@);
        assert(f[2 * j + 1] == ev[j]);
        assert(args[q] == f[2 * j]);
        assert(args[q + 1] == f[2 * j + 1]);
    }
}

} // verus!
