use hugdocker::docker::{
    audit_status, collect_pruned, collect_result, container_from_listing, empty_result,
    execution_steps, highlight_log_line, inspect_summary, port_label, security_signals,
    DockerStep, MountInfo, PortInfo,
};
use hugdocker::domain::{ContainerState, OperationAction};
use hugdocker::ops::OperationPlan;

fn plan(action: OperationAction) -> OperationPlan {
    OperationPlan {
        action,
        projects: vec!["shop".into()],
        containers: vec!["c1".into(), "c2".into()],
        networks: vec!["shop_default".into()],
        volumes: vec!["shop_data".into()],
        images: vec!["example/web:latest".into()],
        confirmation_token: None,
        summary: String::new(),
        warnings: vec![],
    }
}

#[test]
fn error_lines_turn_red_and_warnings_yellow() {
    assert_eq!(highlight_log_line("boom: ERROR x"), "\x1b[31mboom: ERROR x\x1b[0m");
    assert_eq!(highlight_log_line("Panic!"), "\x1b[31mPanic!\x1b[0m");
    assert_eq!(highlight_log_line("fatal"), "\x1b[31mfatal\x1b[0m");
    assert_eq!(highlight_log_line("WARNING disk"), "\x1b[33mWARNING disk\x1b[0m");
    assert_eq!(highlight_log_line("all good"), "all good");
}

#[test]
fn dry_run_makes_no_engine_call() {
    for action in [
        OperationAction::Start,
        OperationAction::Purge,
        OperationAction::Prune,
    ] {
        assert!(execution_steps(&plan(action), true).is_empty());
    }
}

#[test]
fn steps_follow_the_action() {
    assert_eq!(
        execution_steps(&plan(OperationAction::Stop), false),
        vec![
            DockerStep::StopContainer("c1".into()),
            DockerStep::StopContainer("c2".into())
        ]
    );
    assert_eq!(
        execution_steps(&plan(OperationAction::Rescue), false),
        vec![
            DockerStep::RestartContainer("c1".into()),
            DockerStep::RestartContainer("c2".into())
        ]
    );
    assert_eq!(
        execution_steps(&plan(OperationAction::Remove), false),
        vec![
            DockerStep::RemoveContainer("c1".into()),
            DockerStep::RemoveContainer("c2".into())
        ]
    );
    assert_eq!(
        execution_steps(&plan(OperationAction::Purge), false),
        vec![
            DockerStep::RemoveContainer("c1".into()),
            DockerStep::RemoveContainer("c2".into()),
            DockerStep::RemoveVolume("shop_data".into()),
            DockerStep::RemoveImage("example/web:latest".into()),
        ]
    );
    assert_eq!(
        execution_steps(&plan(OperationAction::Prune), false),
        vec![
            DockerStep::PruneContainers,
            DockerStep::PruneNetworks,
            DockerStep::PruneDanglingImages
        ]
    );
}

#[test]
fn replies_are_recorded_and_audited() {
    let mut result = empty_result(OperationAction::Purge);
    assert_eq!(audit_status(&result), ("ok".to_string(), String::new()));
    collect_result("c1", Ok(()), &mut result);
    collect_result("c2", Err("no such container".into()), &mut result);
    collect_pruned("image", "dangling-images", Ok(vec!["sha1".into(), "sha2".into()]), &mut result);
    collect_pruned("network", "networks", Err("busy".into()), &mut result);
    assert_eq!(result.success, vec!["c1", "image:sha1", "image:sha2"]);
    assert_eq!(result.failed.len(), 2);
    assert_eq!(result.failed[0].target, "c2");
    assert_eq!(result.failed[0].message, "no such container");
    assert_eq!(result.failed[1].target, "networks");
    assert_eq!(
        audit_status(&result),
        ("error".to_string(), "2 个目标失败".to_string())
    );
}

#[test]
fn published_ports_are_labelled() {
    let p = |ip: Option<&str>, public: Option<u16>, typ: Option<&str>| PortInfo {
        ip: ip.map(String::from),
        private_port: 80,
        public_port: public,
        typ: typ.map(String::from),
    };
    assert_eq!(
        port_label(&p(Some("0.0.0.0"), Some(8080), Some("tcp"))).as_deref(),
        Some("0.0.0.0:8080->80/tcp")
    );
    assert_eq!(port_label(&p(None, Some(8080), None)).as_deref(), Some("8080->80/tcp"));
    assert_eq!(port_label(&p(None, Some(53), Some("udp"))).as_deref(), Some("53->80/udp"));
    assert_eq!(port_label(&p(Some("::"), None, None)), None);
}

fn mount(kind: &str, name: Option<&str>, source: &str, destination: &str) -> MountInfo {
    MountInfo {
        kind: Some(kind.into()),
        name: name.map(String::from),
        source: Some(source.into()),
        destination: Some(destination.into()),
    }
}

#[test]
fn inspection_gives_sorted_resources_and_security_signals() {
    let mounts = vec![
        mount("volume", Some("zeta"), "/var/lib/docker/volumes/zeta", "/data"),
        mount("bind", None, "/var/run/docker.sock", "/var/run/docker.sock"),
        mount("volume", Some("alpha"), "/x", "/y"),
        mount("volume", Some("zeta"), "/z", "/w"),
    ];
    let (networks, volumes, security) = inspect_summary(
        vec!["b_net".into(), "a_net".into(), "b_net".into()],
        &mounts,
        Some(true),
        &Some("host".into()),
        &Some(String::new()),
    );
    assert_eq!(networks, vec!["a_net", "b_net"]);
    assert_eq!(volumes, vec!["alpha", "zeta"]);
    assert_eq!(
        security,
        vec!["privileged", "host_network", "root_user", "docker_sock"]
    );
    let quiet = security_signals(None, &Some("bridge".into()), &Some("app".into()), &vec![]);
    assert!(quiet.is_empty());
    let etc = vec![mount("bind", None, "/etc", "/host-etc")];
    assert_eq!(
        security_signals(Some(false), &None, &None, &etc),
        vec!["root_user", "sensitive_mount"]
    );
}

#[test]
fn listing_entry_becomes_a_container() {
    let c = container_from_listing(
        Some("abc".into()),
        &vec!["/shop-web-1".into(), "/alias".into()],
        Some("example/web:latest".into()),
        Some("running".into()),
        Some("Up 3 minutes (unhealthy)".into()),
        vec![
            ("com.docker.compose.project".into(), "shop".into()),
            ("com.docker.stack.namespace".into(), String::new()),
            ("tier".into(), "front".into()),
        ],
        &vec![PortInfo {
            ip: Some("127.0.0.1".into()),
            private_port: 80,
            public_port: Some(8080),
            typ: None,
        }],
        vec!["shop_default".into()],
        vec!["shop_data".into()],
        &vec!["privileged".into(), "root_user".into()],
    );
    assert_eq!(c.id, "abc");
    assert_eq!(c.name, "shop-web-1");
    assert_eq!(c.state, ContainerState::Unhealthy);
    assert_eq!(c.compose_project.as_deref(), Some("shop"));
    assert_eq!(c.stack_namespace, None);
    assert_eq!(c.ports, vec!["127.0.0.1:8080->80/tcp"]);
    assert_eq!(
        c.labels,
        vec![
            ("com.docker.compose.project".to_string(), "shop".to_string()),
            ("com.docker.stack.namespace".to_string(), String::new()),
            ("hugdocker.security".to_string(), "privileged,root_user".to_string()),
            ("tier".to_string(), "front".to_string()),
        ]
    );
}
