//! Verified core of the nlink-lab network lab tool.
pub mod text;
pub mod map;
pub mod error;
pub mod types;
pub mod builder;
pub mod diff;
pub mod dns;
pub mod topics;
pub mod messages;
pub mod container;
pub mod op;
pub mod plan;
pub mod rollback;
pub mod benchmark;
pub mod process;
pub mod wireguard;
pub mod capture;
pub mod cgroup;
pub mod routes;
pub mod vrf;
pub mod firewall;
pub mod wgconfig;
pub mod reconcile;
pub mod apply_env;
pub mod netaddr;
pub mod topology_plan;
