# nlink-lab

Verified parts of a network lab tool's planning logic. From a lab
topology (nodes, links, bridge networks, routes, firewalls, WireGuard,
processes) the library computes pieces of what a deploy does: automatic
and VRF routes, nftables rulesets, WireGuard devices, container
arguments, hosts files, process start order; it models the deploy
operations with their stages, keys and inverses and diffs two plans of
them, plans the topology part of a deploy (namespaces, containers,
radios, management bridge, bridge networks, links, bring-up, sysctls,
DNS), and compares two topologies to reconcile a running lab. It does not
perform a deploy. The logic is written in Verus and proved against its
contracts.

## Layout

- `src/` — the verified library.
  - `types`, `builder`, `map`, `text`, `error`: the topology model, its
    fluent builder, an ordered string-keyed map, text helpers and errors.
  - `op`, `plan`, `rollback`: deploy operations with their stages, keys
    and inverses; plan ordering and the plan diff behind `apply`; the undo
    journal and the cleanup guard.
  - `topology_plan`, `netaddr`: the topology part of a deploy plan, and
    network arithmetic on addresses taken as numbers.
  - `diff`, `reconcile`, `apply_env`: the structured diff of two
    topologies, the decisions of applying it, and the context an apply run
    starts from (runtime choice, namespaces of a running lab).
  - `routes`, `vrf`: automatic static routes (BFS over the link graph) and
    VRF-table routes.
  - `firewall`: firewall match expressions and the nftables model.
  - `wireguard`, `wgconfig`: key material and per-node WireGuard devices.
  - `dns`, `container`, `capture`, `cgroup`, `process`, `benchmark`,
    `topics`, `messages`: hosts files, container arguments, pcap framing
    and BPF programs, cgroup paths and counters, process start order,
    benchmark arguments, message topics.
- `tests/` — tests of the library's public functions.
- `app/` — the parts that do I/O or floating point, over the library.

Address parsing is done by the caller: functions that need to know whether
a text is an IP address, and how it prints, take an `AddrFacts` table;
the deploy planner takes the parsed management subnet, and the names the
lab's naming rules give, in a `DeployNames` value.
