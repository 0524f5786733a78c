use nlink_lab::container::{
    abs_host_path, build_create_opts, create_args, freq_from_channel, join_path, parse_pid,
    CreateOpts, Runtime,
};
use nlink_lab::error::Error;
use nlink_lab::types::{ContainerRuntime, Node};

#[test]
fn parse_pid_accepts_running_container() {
    assert_eq!(parse_pid("4242\n", "abc").unwrap(), 4242);
    assert_eq!(parse_pid("  7 ", "abc").unwrap(), 7);
}

#[test]
fn parse_pid_rejects_zero_as_exited() {
    let err = parse_pid("0\n", "deadbeef").unwrap_err().to_text();
    assert!(err.contains("exited immediately"), "{err}");
    assert!(err.contains("check its logs"), "{err}");
    assert!(err.contains("deadbeef"), "{err}");
}

#[test]
fn parse_pid_rejects_garbage() {
    let err = parse_pid("<no value>", "x").unwrap_err().to_text();
    assert!(err.contains("invalid PID"), "{err}");
    assert!(parse_pid("", "x").is_err());
    assert!(parse_pid("-1", "x").is_err());
}

#[test]
fn parse_pid_messages() {
    assert_eq!(
        parse_pid("", "x"),
        Err(Error::DeployFailed(
            "invalid PID '' for container 'x': cannot parse integer from empty string".into()
        ))
    );
    assert_eq!(
        parse_pid("99999999999", "x"),
        Err(Error::DeployFailed(
            "invalid PID '99999999999' for container 'x': number too large to fit in target type".into()
        ))
    );
    assert_eq!(parse_pid("+12", "x"), Ok(12));
    assert_eq!(parse_pid("4294967295", "x"), Ok(u32::MAX));
}

#[test]
fn with_binary_does_not_probe() {
    let rt = Runtime::with_binary("definitely-not-a-runtime");
    assert_eq!(rt.binary(), "definitely-not-a-runtime");
}

#[test]
fn runtime_selection() {
    assert_eq!(Runtime::new(&ContainerRuntime::Auto, true, true).unwrap().binary(), "podman");
    assert_eq!(Runtime::new(&ContainerRuntime::Auto, false, true).unwrap().binary(), "docker");
    match Runtime::new(&ContainerRuntime::Auto, false, false) {
        Err(e) => assert_eq!(e.to_text(), "deploy failed: no container runtime found: install docker or podman"),
        Ok(_) => panic!("expected an error"),
    }
    match Runtime::new(&ContainerRuntime::Docker, true, false) {
        Err(e) => assert_eq!(e.to_text(), "deploy failed: container runtime 'docker' not found or not working"),
        Ok(_) => panic!("expected an error"),
    }
    assert_eq!(Runtime::new(&ContainerRuntime::Podman, true, false).unwrap().binary(), "podman");
}

#[test]
fn run_args_default_caps() {
    let opts = CreateOpts::default();
    let args = create_args("lab-a", "alpine", &opts, None, &[]);
    assert_eq!(
        args,
        vec!["run", "-d", "--name", "lab-a", "--network=none", "--cap-add=NET_ADMIN", "--cap-add=NET_RAW", "alpine"]
    );
}

#[test]
fn run_args_full() {
    let mut opts = CreateOpts::default();
    opts.privileged = true;
    opts.cpu = Some("1.5".into());
    opts.labels = vec!["k=v".into()];
    opts.configs = vec![("web.env".into(), "/etc/web.env".into())];
    opts.env_file = Some("/abs/env".into());
    opts.overlay = Some("ov".into());
    opts.extra_hosts = vec!["h:1.2.3.4".into()];
    opts.cmd = Some(vec!["sleep".into(), "1".into()]);
    let args = create_args("n", "img", &opts, Some("/work"), &["/work/ov/etc:/etc".to_string()]);
    assert_eq!(
        args,
        vec![
            "run", "-d", "--name", "n", "--network=none", "--privileged", "--cpus", "1.5", "--label", "k=v",
            "--volume", "/work/web.env:/etc/web.env:ro", "--env-file", "/abs/env", "--volume",
            "/work/ov/etc:/etc", "--add-host", "h:1.2.3.4", "img", "sleep", "1"
        ]
    );
}

#[test]
fn build_create_opts_copies_node() {
    let mut node = Node::empty();
    node.cpu = Some("2".into());
    node.cap_add = vec!["SYS_ADMIN".into()];
    let o = build_create_opts(&node, &["x:1.1.1.1".to_string()]);
    assert_eq!(o.cpu.as_deref(), Some("2"));
    assert_eq!(o.cap_add, vec!["SYS_ADMIN".to_string()]);
    assert_eq!(o.extra_hosts, vec!["x:1.1.1.1".to_string()]);
    assert!(o.cmd.is_none() && o.volumes.is_empty());
}

#[test]
fn host_paths() {
    assert_eq!(abs_host_path("configs/web.env", Some("/srv")), "/srv/configs/web.env");
    assert_eq!(abs_host_path("/etc/hosts", Some("/srv")), "/etc/hosts");
    assert_eq!(abs_host_path("rel", None), "rel");
    assert_eq!(join_path("/", "a"), "/a");
}

#[test]
fn relative_host_paths_are_absolutised() {
    // podman reads a relative --volume source as a NAMED VOLUME, so a
    // relative host path is joined to the working directory.
    let abs = abs_host_path("configs/web.env", Some("/home/lab"));
    assert!(abs.starts_with('/'), "not absolute: {abs}");
    assert!(abs.ends_with("configs/web.env"), "{abs}");
    assert_eq!(abs_host_path("/etc/hosts", Some("/home/lab")), "/etc/hosts");
}

#[test]
fn wifi_channels() {
    assert_eq!(freq_from_channel(1), "2412");
    assert_eq!(freq_from_channel(6), "2437");
    assert_eq!(freq_from_channel(14), "2484");
    assert_eq!(freq_from_channel(44), "5220");
    assert_eq!(freq_from_channel(99), "2412");
}

fn node_with_deps(deps: &[&str]) -> Node {
    let mut n = Node::empty();
    n.depends_on = deps.iter().map(|s| s.to_string()).collect();
    n
}

fn nodes_of(list: &[(&str, &[&str])]) -> nlink_lab::map::StrMap<Node> {
    let mut m = nlink_lab::map::StrMap::new();
    for (name, deps) in list {
        m.insert(name.to_string(), node_with_deps(deps));
    }
    m
}

#[test]
fn topo_sort_puts_dependencies_first() {
    let nodes = nodes_of(&[("web", &["db", "cache"]), ("db", &[]), ("cache", &["db"]), ("zz", &[])]);
    let order = nlink_lab::process::topo_sort_nodes(&nodes);
    // level by level, each level in name order
    assert_eq!(order, vec!["db", "zz", "cache", "web"]);
}

#[test]
fn topo_sort_finishes_a_level_before_the_next() {
    let nodes = nodes_of(&[("a", &[]), ("b", &["a"]), ("c", &[])]);
    assert_eq!(nlink_lab::process::topo_sort_nodes(&nodes), vec!["a", "c", "b"]);
}

#[test]
fn topo_sort_appends_cycles_and_missing_in_name_order() {
    let nodes = nodes_of(&[("a", &["b"]), ("b", &["a"]), ("c", &["ghost"]), ("d", &[])]);
    let order = nlink_lab::process::topo_sort_nodes(&nodes);
    assert_eq!(order, vec!["d", "a", "b", "c"]);
}
