use hugdocker::config::AppConfig;
use hugdocker::domain::{Container, ContainerState, DockerSnapshot, OperationAction, SortMode};
use hugdocker::health::project_fingerprints;
use hugdocker::ops::OperationPlanner;
use hugdocker::tui::{
    apply_mouse_action, handle_key, pop_execution_token, push_execution_token, DashboardState,
    Key, KeyOutcome, MouseAction, TuiPanel,
};

fn container(id: &str, project: Option<&str>, state: ContainerState) -> Container {
    Container {
        id: id.into(),
        name: format!("{id}_1"),
        image: format!("example/{id}:latest"),
        state,
        status: "Up".into(),
        compose_project: project.map(String::from),
        stack_namespace: None,
        labels: vec![],
        networks: vec![],
        volumes: vec![format!("{id}_data")],
        ports: vec!["0.0.0.0:80->80/tcp".into()],
    }
}

fn snapshot() -> DockerSnapshot {
    DockerSnapshot::from_containers(
        vec![
            container("a", Some("zeta"), ContainerState::Running),
            container("b", Some("alpha"), ContainerState::Paused),
            container("c", Some("zeta"), ContainerState::Exited),
            container("d", None, ContainerState::Unhealthy),
            container("e", Some("mid"), ContainerState::Restarting),
            container("f", Some("alpha"), ContainerState::Running),
        ],
        vec![],
        vec![],
        vec![],
        &AppConfig::default(),
    )
}

#[test]
fn every_container_lands_in_exactly_one_project() {
    let snap = snapshot();
    let mut ids: Vec<String> = snap
        .projects
        .iter()
        .flat_map(|p| p.containers.iter().map(|c| c.id.clone()))
        .collect();
    ids.sort();
    assert_eq!(ids, vec!["a", "b", "c", "d", "e", "f"]);
}

#[test]
fn sorting_rearranges_and_orders() {
    let snap = snapshot();
    let by_name: Vec<String> = snap
        .projects_sorted(SortMode::NameAsc)
        .into_iter()
        .map(|p| p.name)
        .collect();
    let mut sorted = by_name.clone();
    sorted.sort();
    assert_eq!(by_name, sorted);
    assert_eq!(by_name.len(), snap.projects.len());
    let severities: Vec<usize> = snap
        .projects_sorted(SortMode::Severity)
        .iter()
        .map(|p| p.severity_rank())
        .collect();
    assert!(severities.windows(2).all(|w| w[0] >= w[1]));
}

#[test]
fn purge_removes_what_remove_does_plus_data() {
    let snap = snapshot();
    let planner = OperationPlanner::new(&snap);
    let names = vec!["zeta".to_string(), "alpha".to_string()];
    let remove = planner.plan(OperationAction::Remove, &names).expect("remove");
    let purge = planner.plan(OperationAction::Purge, &names).expect("purge");
    assert_eq!(remove.containers, purge.containers);
    assert_eq!(remove.networks, purge.networks);
    assert!(remove.volumes.is_empty() && remove.images.is_empty());
    assert_eq!(purge.volumes, vec!["a_data", "b_data", "c_data", "f_data"]);
}

#[test]
fn prune_plan_names_nothing_and_needs_prune_token() {
    let snap = snapshot();
    let plan = OperationPlanner::new(&snap)
        .plan(OperationAction::Prune, &[])
        .expect("prune");
    assert!(plan.containers.is_empty() && plan.networks.is_empty());
    assert!(plan.volumes.is_empty() && plan.images.is_empty());
    assert_eq!(plan.confirmation_token.as_deref(), Some("PRUNE"));
}

#[test]
fn exactly_destructive_plans_carry_tokens() {
    let snap = snapshot();
    let planner = OperationPlanner::new(&snap);
    for action in [
        OperationAction::Start,
        OperationAction::Stop,
        OperationAction::Restart,
        OperationAction::Remove,
        OperationAction::Purge,
        OperationAction::Prune,
        OperationAction::Rescue,
    ] {
        let plan = planner.plan(action, &["mid".into()]).expect("plan");
        let destructive = matches!(
            action,
            OperationAction::Remove | OperationAction::Purge | OperationAction::Prune
        );
        assert_eq!(plan.confirmation_token.is_some(), destructive);
    }
}

#[test]
fn stop_and_rescue_only_touch_active_containers() {
    let snap = snapshot();
    let planner = OperationPlanner::new(&snap);
    let names = vec!["zeta".to_string()];
    assert_eq!(planner.plan(OperationAction::Stop, &names).unwrap().containers, vec!["a"]);
    assert_eq!(planner.plan(OperationAction::Rescue, &names).unwrap().containers, vec!["a"]);
    assert_eq!(
        planner.plan(OperationAction::Start, &names).unwrap().containers,
        vec!["a", "c"]
    );
}

#[test]
fn risk_scores_never_exceed_100() {
    let mut containers = Vec::new();
    for i in 0..5 {
        containers.push(container(&format!("u{i}"), Some("hot"), ContainerState::Unhealthy));
    }
    let snap = DockerSnapshot::from_containers(containers, vec![], vec![], vec![], &AppConfig::default());
    let fps = project_fingerprints(&snap);
    assert_eq!(fps[0].risk_score, 100);
}

#[test]
fn typing_then_deleting_a_token_character_undoes_it() {
    let mut s = DashboardState::from_snapshot(snapshot(), SortMode::Severity);
    handle_key(&mut s, Key::Char('4'));
    handle_key(&mut s, Key::Enter);
    push_execution_token(&mut s, 'R');
    let before = s.execution_prompt.clone();
    push_execution_token(&mut s, 'x');
    pop_execution_token(&mut s);
    assert_eq!(s.execution_prompt, before);
}

#[test]
fn toggling_twice_restores_the_selection() {
    let mut s = DashboardState::from_snapshot(snapshot(), SortMode::Severity);
    s.toggle_selected();
    let once = s.selected.clone();
    s.toggle_selected();
    s.toggle_selected();
    assert_eq!(s.selected, once);
}

#[test]
fn filtering_keeps_only_listed_projects_selected() {
    let mut s = DashboardState::from_snapshot(snapshot(), SortMode::Severity);
    s.toggle_all();
    handle_key(&mut s, Key::Char('z'));
    assert_eq!(s.selected, vec!["zeta"]);
    assert_eq!(s.selected_row, Some(0));
}

#[test]
fn mouse_never_opens_an_execution_prompt() {
    let mut s = DashboardState::from_snapshot(snapshot(), SortMode::Severity);
    for action in [
        MouseAction::ProjectRowClick { row: 0 },
        MouseAction::OpenContextMenu { row: 1, x: 3, y: 3 },
        MouseAction::ContextMenuClick { item: hugdocker::tui::ContextMenuItem::Purge },
        MouseAction::ScrollDown,
    ] {
        apply_mouse_action(&mut s, action);
        assert!(s.execution_prompt.is_none());
    }
    assert_eq!(s.panel, TuiPanel::Plan(OperationAction::Purge));
}

#[test]
fn execution_is_asked_only_from_an_open_prompt() {
    let mut s = DashboardState::from_snapshot(snapshot(), SortMode::Severity);
    assert_eq!(handle_key(&mut s, Key::Enter), KeyOutcome::Continue);
    assert_eq!(s.panel, TuiPanel::Plan(OperationAction::Stop));
    assert!(s.execution_prompt.is_none());
    assert_eq!(handle_key(&mut s, Key::Enter), KeyOutcome::Continue);
    assert!(s.execution_prompt.is_some());
    assert_eq!(handle_key(&mut s, Key::Enter), KeyOutcome::ExecutePlan);
}
