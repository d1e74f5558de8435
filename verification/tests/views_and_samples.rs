use hugdocker::config::AppConfig;
use hugdocker::docker::{block_io_totals, network_totals};
use hugdocker::domain::{Container, ContainerState, DockerSnapshot, SortMode};
use hugdocker::output::running_projects;
use hugdocker::tui::{
    context_menu_rect, exec_finished, log_state_tone, log_status_tone, project_risk,
    ContextMenuState, DashboardState, Tone,
};

fn container(id: &str, project: &str, state: ContainerState) -> Container {
    Container {
        id: id.into(),
        name: format!("{id}_1"),
        image: "example/app:latest".into(),
        state,
        status: "Up".into(),
        compose_project: Some(project.into()),
        stack_namespace: None,
        labels: vec![],
        networks: vec![],
        volumes: vec![],
        ports: vec![],
    }
}

fn snapshot() -> DockerSnapshot {
    DockerSnapshot::from_containers(
        vec![
            container("a", "alpha", ContainerState::Running),
            container("b", "beta", ContainerState::Exited),
            container("c", "gamma", ContainerState::Paused),
            container("d", "delta", ContainerState::Restarting),
            container("e", "eps", ContainerState::Unhealthy),
        ],
        vec![],
        vec![],
        vec![],
        &AppConfig::default(),
    )
}

#[test]
fn running_view_keeps_only_active_projects_in_order() {
    let projects = snapshot().projects_sorted(SortMode::NameAsc);
    let names: Vec<String> = running_projects(&projects).into_iter().map(|p| p.name).collect();
    assert_eq!(names, vec!["alpha", "delta", "eps", "gamma"]);
    assert!(running_projects(&Vec::new()).is_empty());
}

#[test]
fn risk_labels_follow_the_most_severe_state() {
    let snap = snapshot();
    let risk = |name: &str| project_risk(snap.project(name).unwrap());
    assert_eq!(risk("eps"), ("HIGH", Tone::Danger));
    assert_eq!(risk("delta"), ("LOOP", Tone::Warning));
    assert_eq!(risk("gamma"), ("PAUSE", Tone::Accent));
    assert_eq!(risk("alpha"), ("LOW", Tone::Success));
    assert_eq!(risk("beta"), ("IDLE", Tone::Muted));
}

#[test]
fn log_tones_for_states_and_status_words() {
    assert_eq!(log_state_tone(ContainerState::Dead), Tone::Danger);
    assert_eq!(log_state_tone(ContainerState::Paused), Tone::Warning);
    assert_eq!(log_state_tone(ContainerState::Running), Tone::Success);
    assert_eq!(log_state_tone(ContainerState::Exited), Tone::Muted);
    assert_eq!(log_status_tone("Up 3 hours (UNHEALTHY)"), Tone::Danger);
    assert_eq!(log_status_tone("Restarting (1) 5 seconds ago"), Tone::Warning);
    assert_eq!(log_status_tone("Up 2 minutes"), Tone::Muted);
}

#[test]
fn context_menu_box_is_moved_to_fit_the_screen() {
    let menu = ContextMenuState {
        project: "alpha".into(),
        row: 0,
        x: 100,
        y: 40,
        selected_index: 0,
    };
    assert_eq!(context_menu_rect(120, 40, &menu), (84, 27, 36, 13));
    let near = ContextMenuState { x: 5, y: 6, ..menu.clone() };
    assert_eq!(context_menu_rect(120, 40, &near), (5, 6, 36, 13));
    assert_eq!(context_menu_rect(20, 10, &near), (0, 0, 20, 10));
}

#[test]
fn shell_outcome_closes_picker_and_reports() {
    let mut state = DashboardState::from_snapshot(snapshot(), SortMode::Severity);
    state.exec_container_index = Some(0);
    exec_finished(&mut state, "alpha_1", Ok("bash".into()));
    assert_eq!(state.exec_container_index, None);
    assert_eq!(state.status, "已退出容器 shell: alpha_1 (bash)");
    exec_finished(&mut state, "alpha_1", Err("exit status: 126".into()));
    assert_eq!(state.status, "无法执行 docker exec: exit status: 126");
}

#[test]
fn network_and_block_io_totals_add_what_is_reported() {
    assert_eq!(
        network_totals(&vec![(Some(100), Some(7)), (None, Some(3)), (Some(50), None)]),
        (150, 10)
    );
    assert_eq!(network_totals(&vec![]), (0, 0));
    assert_eq!(
        block_io_totals(&vec![
            (Some("Read".into()), Some(4096)),
            (Some("write".into()), Some(512)),
            (Some("READ".into()), Some(4)),
            (Some("sync".into()), Some(99)),
            (None, Some(1)),
            (Some("write".into()), None),
        ]),
        (4100, 512)
    );
}
