use hugdocker::cli::{plan_lines, profile_groups, token_matches, update_flow_lines};
use hugdocker::config::AppConfig;
use hugdocker::domain::{Container, ContainerState, DockerSnapshot, OperationAction, SortMode};
use hugdocker::health::{fingerprints_fit, health_report, project_fingerprints};
use hugdocker::tui::{
    command_palette_text, detail_text, doctor_text, logs_text, resources_text,
    top_risky_fingerprints, DashboardState,
};

fn container(id: &str, project: &str, state: ContainerState) -> Container {
    Container {
        id: id.into(),
        name: format!("{id}_1"),
        image: format!("example/{id}:latest"),
        state,
        status: "Up".into(),
        compose_project: Some(project.into()),
        stack_namespace: None,
        labels: vec![],
        networks: vec![format!("{project}_default")],
        volumes: vec![],
        ports: vec![],
    }
}

fn snapshot() -> DockerSnapshot {
    DockerSnapshot::from_containers(
        vec![
            container("web", "shop", ContainerState::Running),
            container("worker", "shop", ContainerState::Restarting),
            container("api", "api", ContainerState::Running),
            container("blog", "blog", ContainerState::Exited),
        ],
        vec![],
        vec![],
        vec![],
        &AppConfig::default(),
    )
}

#[test]
fn detail_and_log_panels_describe_the_highlighted_project() {
    let state = DashboardState::from_snapshot(snapshot(), SortMode::Severity);
    assert_eq!(
        detail_text(&state),
        "shop\nkind: Compose\nstate: RSTR\ncontainers: 2 active:2 stopped:0\nnetworks: shop_default\nvolumes: \nimages: example/web:latest, example/worker:latest\nports: \n\n- web_1 [UP] example/web:latest\n  Up\n- worker_1 [RSTR] example/worker:latest\n  Up\n"
    );
    let logs = logs_text(&state);
    assert!(logs.starts_with("Log Lens\nproject: shop\ncontainers: 2\ntail: 200 lines\nfilter: none\n"));
    assert!(logs.ends_with("hugdocker logs web --tail 200\n- web_1 [UP] Up\n- worker_1 [RSTR] Up\n"));
    let res = resources_text(&state);
    assert!(res.contains("containers: 2 total / 2 active\n"));
    assert!(res.contains("hugdocker stats web --json\n"));
    let palette = command_palette_text(&state);
    assert!(palette.starts_with("Command Palette\n\ntarget project: shop\n"));
    assert!(palette.contains("  hugdocker logs web --tail 200 --follow\n"));
    assert!(palette.ends_with("select(.project==\"shop\")'"));
}

#[test]
fn empty_list_panels_say_so() {
    let state = DashboardState::from_snapshot(DockerSnapshot::empty(), SortMode::Severity);
    assert_eq!(detail_text(&state), "No project matches current filter.");
    assert_eq!(logs_text(&state), "Log Lens\nNo project matches current filter.");
    assert_eq!(doctor_text(&state.snapshot), "No obvious risk found.");
}

#[test]
fn doctor_panel_lists_fingerprints_projects_and_global_findings() {
    let snap = snapshot();
    assert!(fingerprints_fit(&snap));
    let text = doctor_text(&snap);
    assert!(text.starts_with("Risk Fingerprints\n- shop score="));
    assert!(text.contains("  next: hugdocker rescue shop --dry-run\n"));
    assert!(text.contains("Critical shop\n  - 1 个 restarting 容器\n"));
    let fps = project_fingerprints(&snap);
    let top = top_risky_fingerprints(&fps);
    assert!(top.len() <= 5);
    assert!(top.iter().all(|f| f.risk_score > 0));
    assert_eq!(top[0].project, "shop");
    let report = health_report(true, false, &snap);
    assert!(report.docker_cli);
    assert!(!report.docker_daemon);
    assert_eq!(report.projects.len(), 3);
}

#[test]
fn plan_lines_and_update_flow() {
    let snap = snapshot();
    let plan = hugdocker::ops::OperationPlanner::new(&snap)
        .plan(OperationAction::Restart, &["shop".into(), "api".into()])
        .expect("plan");
    let lines = plan_lines(&plan);
    assert_eq!(lines[0], "将重启 3 个容器。");
    assert_eq!(lines[1], "容器: api, web, worker");
    let flow = update_flow_lines(&plan);
    assert_eq!(flow[0], "Safe Update Flow");
    assert_eq!(flow[1], "pull: docker compose -p shop pull");
    assert_eq!(flow[2], "pull: docker compose -p api pull");
    assert_eq!(flow[3], lines[0]);
    assert_eq!(flow.last().map(String::as_str), Some("health: hugdocker doctor"));
    assert_eq!(flow.len(), lines.len() + 4);
}

#[test]
fn typed_token_is_compared_after_trimming() {
    assert!(token_matches("  DELETE-shop\n", "DELETE-shop"));
    assert!(!token_matches("delete-shop", "DELETE-shop"));
}

#[test]
fn profiles_group_projects_by_pattern_then_kind() {
    let mut config = AppConfig::default();
    config.profiles.groups = vec![
        ("web".into(), vec!["sho*".into()]),
        ("backend".into(), vec!["api".into(), "*".into()]),
    ];
    let groups = profile_groups(&snapshot(), &config);
    assert_eq!(
        groups,
        vec![
            ("backend".to_string(), vec!["api".to_string(), "blog".to_string()]),
            ("web".to_string(), vec!["shop".to_string()]),
        ]
    );
    let plain = profile_groups(&snapshot(), &AppConfig::default());
    assert_eq!(
        plain,
        vec![(
            "Compose".to_string(),
            vec!["api".to_string(), "blog".to_string(), "shop".to_string()]
        )]
    );
}
