use hugdocker::config::AppConfig;
use hugdocker::domain::{Container, ContainerState, DockerSnapshot, OperationAction, SortMode};
use hugdocker::tui::{
    apply_mouse_action, confirm_execution, context_menu_item_at, context_menu_item_index,
    current_exec_container, dashboard_metrics, execution_plan_if_confirmed, finish_execution,
    format_execution_prompt, format_plan, handle_key, help_text, is_destructive_action,
    mouse_action_for_event, operation_label, project_row_for_mouse, ContextMenuItem,
    ContextMenuState, DashboardState, Key, KeyOutcome, MouseAction, MouseKind, TuiPanel,
};

fn container(id: &str, name: &str, project: &str, state: ContainerState) -> Container {
    Container {
        id: id.into(),
        name: name.into(),
        image: format!("example/{id}:latest"),
        state,
        status: "Up".into(),
        compose_project: Some(project.into()),
        stack_namespace: None,
        labels: vec![],
        networks: vec![format!("{project}_default")],
        volumes: vec![],
        ports: vec![],
    }
}

fn state() -> DashboardState {
    let snapshot = DockerSnapshot::from_containers(
        vec![
            container("w1", "web_1", "shop", ContainerState::Running),
            container("w2", "worker_1", "shop", ContainerState::Unhealthy),
            container("a1", "api_1", "api", ContainerState::Exited),
            container("b1", "blog_1", "blog", ContainerState::Running),
        ],
        vec![],
        vec![],
        vec![],
        &AppConfig::default(),
    );
    DashboardState::from_snapshot(snapshot, SortMode::Severity)
}

fn names(state: &DashboardState) -> Vec<String> {
    state.filtered.iter().map(|p| p.name.clone()).collect()
}

#[test]
fn dashboard_starts_on_the_most_severe_project() {
    let s = state();
    assert_eq!(names(&s), vec!["shop", "blog", "api"]);
    assert_eq!(s.selected_row, Some(0));
    assert_eq!(s.panel, TuiPanel::Inbox);
    assert_eq!(s.current_project().map(|p| p.name.as_str()), Some("shop"));
    assert_eq!(dashboard_metrics(&s), (3, 2, 1, 0, 3));
}

#[test]
fn typing_filters_and_backspace_restores() {
    let mut s = state();
    assert_eq!(handle_key(&mut s, Key::Char('B')), KeyOutcome::Continue);
    assert_eq!(names(&s), vec!["blog"]);
    assert_eq!(s.filter, "B");
    assert_eq!(handle_key(&mut s, Key::Backspace), KeyOutcome::Continue);
    assert_eq!(names(&s), vec!["shop", "blog", "api"]);
    handle_key(&mut s, Key::Char('x'));
    assert_eq!(names(&s), vec!["shop", "blog"]);
    handle_key(&mut s, Key::Char('o'));
    assert_eq!(s.sort_mode, SortMode::NameAsc);
    assert_eq!(names(&s), vec!["blog", "shop"]);
}

#[test]
fn keys_move_select_and_quit() {
    let mut s = state();
    handle_key(&mut s, Key::Down);
    handle_key(&mut s, Key::Down);
    handle_key(&mut s, Key::Down);
    assert_eq!(s.selected_row, Some(2));
    handle_key(&mut s, Key::Char('k'));
    assert_eq!(s.selected_row, Some(1));
    handle_key(&mut s, Key::Char(' '));
    assert_eq!(s.selected, vec!["blog"]);
    handle_key(&mut s, Key::Char(' '));
    assert!(s.selected.is_empty());
    handle_key(&mut s, Key::Char('a'));
    assert_eq!(s.selected, vec!["api", "blog", "shop"]);
    handle_key(&mut s, Key::Char('a'));
    assert!(s.selected.is_empty());
    assert_eq!(handle_key(&mut s, Key::Char('r')), KeyOutcome::Refresh);
    assert_eq!(handle_key(&mut s, Key::Esc), KeyOutcome::Quit);
    assert_eq!(handle_key(&mut s, Key::Char('q')), KeyOutcome::Quit);
}

#[test]
fn destructive_plan_executes_only_with_the_typed_token() {
    let mut s = state();
    handle_key(&mut s, Key::Char('5'));
    assert_eq!(s.panel, TuiPanel::Plan(OperationAction::Purge));
    handle_key(&mut s, Key::Enter);
    assert_eq!(s.status, "输入确认令牌后按 Enter 执行，Esc 取消。");
    assert_eq!(handle_key(&mut s, Key::Enter), KeyOutcome::ExecutePlan);
    assert_eq!(confirm_execution(&mut s).expect("plan"), None);
    assert_eq!(s.status, "确认令牌未匹配，继续输入或按 Esc 取消。");
    for c in "DELETE-shopX".chars() {
        handle_key(&mut s, Key::Char(c));
    }
    handle_key(&mut s, Key::Backspace);
    assert_eq!(s.execution_prompt.as_ref().unwrap().token_input, "DELETE-shop");
    let plan = execution_plan_if_confirmed(&s).expect("plan").expect("confirmed");
    assert_eq!(plan.action, OperationAction::Purge);
    assert_eq!(plan.projects, vec!["shop"]);
    let confirmed = confirm_execution(&mut s).expect("plan").expect("confirmed");
    assert_eq!(confirmed.containers, vec!["w1", "w2"]);
    assert_eq!(s.status, "正在执行 Purge ...");
    finish_execution(&mut s, OperationAction::Purge, 2, 0);
    assert!(s.execution_prompt.is_none());
    assert_eq!(s.status, "Purge 执行完成: 成功 2 个，失败 0 个。");
}

#[test]
fn plain_actions_confirm_with_a_second_enter_and_esc_cancels() {
    let mut s = state();
    handle_key(&mut s, Key::Char('3'));
    handle_key(&mut s, Key::Enter);
    assert_eq!(s.status, "再次按 Enter 执行 Restart，Esc 取消。");
    let plan = execution_plan_if_confirmed(&s).expect("plan").expect("no token needed");
    assert_eq!(plan.action, OperationAction::Restart);
    handle_key(&mut s, Key::Esc);
    assert!(s.execution_prompt.is_none());
    assert_eq!(s.status, "已取消 TUI 执行。");
    assert_eq!(execution_plan_if_confirmed(&s), Ok(None));
}

#[test]
fn enter_outside_a_plan_opens_the_stop_plan() {
    let mut s = state();
    handle_key(&mut s, Key::Char('d'));
    assert_eq!(s.panel, TuiPanel::Doctor);
    handle_key(&mut s, Key::Enter);
    assert_eq!(s.panel, TuiPanel::Plan(OperationAction::Stop));
    assert!(s.execution_prompt.is_none());
}

#[test]
fn mouse_selects_opens_menu_and_never_executes() {
    let mut s = state();
    apply_mouse_action(&mut s, MouseAction::ProjectRowClick { row: 2 });
    assert_eq!(s.selected_row, Some(2));
    assert_eq!(s.selected, vec!["api"]);
    apply_mouse_action(&mut s, MouseAction::OpenContextMenu { row: 1, x: 10, y: 12 });
    assert_eq!(s.selected, vec!["blog"]);
    assert_eq!(s.status, "右键管理菜单已打开: blog");
    apply_mouse_action(&mut s, MouseAction::ContextMenuHover { item: ContextMenuItem::Purge });
    assert_eq!(s.context_menu.as_ref().unwrap().selected_index, 10);
    apply_mouse_action(&mut s, MouseAction::ContextMenuClick { item: ContextMenuItem::Purge });
    assert_eq!(s.panel, TuiPanel::Plan(OperationAction::Purge));
    assert!(s.context_menu.is_none());
    assert!(s.execution_prompt.is_none());
    assert_eq!(s.status, "已选择右键菜单动作: Purge");
    apply_mouse_action(&mut s, MouseAction::PanelClick { slot: 7 });
    assert_eq!(s.panel, TuiPanel::Help);
}

#[test]
fn context_menu_keys_move_and_pick() {
    let mut s = state();
    apply_mouse_action(&mut s, MouseAction::OpenContextMenu { row: 0, x: 1, y: 1 });
    handle_key(&mut s, Key::Char('j'));
    handle_key(&mut s, Key::Down);
    assert_eq!(s.context_menu.as_ref().unwrap().selected_index, 2);
    handle_key(&mut s, Key::Enter);
    assert_eq!(s.panel, TuiPanel::Plan(OperationAction::Start));
    apply_mouse_action(&mut s, MouseAction::OpenContextMenu { row: 0, x: 1, y: 1 });
    for _ in 0..8 {
        handle_key(&mut s, Key::Down);
    }
    handle_key(&mut s, Key::Enter);
    assert_eq!(s.exec_container_index, Some(0));
    assert_eq!(s.status, "Exec 选择器已打开: 2 个 active 容器。");
    assert_eq!(current_exec_container(&s).map(|c| c.id), Some("w1".to_string()));
    assert_eq!(handle_key(&mut s, Key::Enter), KeyOutcome::ExecContainer);
    handle_key(&mut s, Key::Esc);
    assert_eq!(s.exec_container_index, None);
    assert_eq!(s.status, "已取消进入容器。");
}

#[test]
fn plan_text_shows_scope_token_and_safety_rail() {
    let s = state();
    let plan = s.plan_for(OperationAction::Remove).expect("plan");
    let text = format_plan(plan, None);
    assert!(text.contains("\n\n项目: shop\n"));
    assert!(text.contains("容器: w1, w2\n"));
    assert!(text.contains("\nCLI 执行需确认令牌: REMOVE-shop\n"));
    assert!(text.contains("Safety Rail\ndestructive action: Remove\nrequired token: REMOVE-shop\n"));
    assert!(text.ends_with("\nTUI 执行: 按 Enter 打开执行确认。\n"));
    let rescue = format_plan(s.plan_for(OperationAction::Rescue).expect("plan"), None);
    assert!(rescue.contains("验证命令: hugdocker rescue shop --dry-run\n执行命令: hugdocker rescue shop\n"));
    assert!(!rescue.contains("Safety Rail"));
}

#[test]
fn execution_prompt_text_follows_the_prompt() {
    let s = state();
    let plan = s.plan_for(OperationAction::Purge).expect("plan");
    let prompt = hugdocker::tui::ExecutionPrompt {
        action: OperationAction::Purge,
        token_input: "DEL".into(),
    };
    assert_eq!(
        format_execution_prompt(&plan, Some(&prompt)),
        "\nExecute Purge\n确认令牌: DELETE-shop\n已输入: DEL\n输入完整令牌后按 Enter 执行；Esc to cancel。\n"
    );
    let other = hugdocker::tui::ExecutionPrompt {
        action: OperationAction::Stop,
        token_input: String::new(),
    };
    assert_eq!(
        format_execution_prompt(&plan, Some(&other)),
        "\nTUI 执行: 按 Enter 打开执行确认。\n"
    );
}

#[test]
fn labels_and_help() {
    assert_eq!(operation_label(OperationAction::Prune), "Prune");
    assert!(is_destructive_action(OperationAction::Remove));
    assert!(!is_destructive_action(OperationAction::Rescue));
    assert_eq!(context_menu_item_index(ContextMenuItem::Exec), 8);
    assert_eq!(ContextMenuItem::Logs.label(), "Logs");
    assert_eq!(ContextMenuItem::Exec.panel(), None);
    let help = help_text();
    assert!(help.starts_with("hugdocker TUI\n\n鼠标左键项目行: 选择/反选\n"));
    assert!(help.ends_with("\n\nRemove/Purge 必须输入确认令牌；普通动作需要二次 Enter。"));
    assert_eq!(help.lines().count(), 16);
}

#[test]
fn mouse_hit_testing_maps_rows_and_menu_entries() {
    assert_eq!(project_row_for_mouse(120, 40, 5, 10, 3), Some(0));
    assert_eq!(project_row_for_mouse(120, 40, 5, 12, 3), Some(2));
    assert_eq!(project_row_for_mouse(120, 40, 5, 13, 3), None);
    assert_eq!(project_row_for_mouse(120, 40, 80, 10, 3), None);
    assert_eq!(project_row_for_mouse(120, 40, 5, 7, 3), None);
    let menu = ContextMenuState {
        project: "shop".into(),
        row: 0,
        x: 100,
        y: 30,
        selected_index: 0,
    };
    assert_eq!(context_menu_item_at(120, 40, &menu, 90, 28), Some(ContextMenuItem::Inspect));
    assert_eq!(context_menu_item_at(120, 40, &menu, 90, 38), Some(ContextMenuItem::Purge));
    assert_eq!(context_menu_item_at(120, 40, &menu, 84, 28), None);
    assert_eq!(
        mouse_action_for_event(MouseKind::LeftDown, 90, 29, 120, 40, 3, Some(&menu)),
        Some(MouseAction::ContextMenuClick { item: ContextMenuItem::Doctor })
    );
    assert_eq!(
        mouse_action_for_event(MouseKind::LeftDown, 2, 2, 120, 40, 3, Some(&menu)),
        Some(MouseAction::CloseContextMenu)
    );
    assert_eq!(
        mouse_action_for_event(MouseKind::RightDown, 5, 11, 120, 40, 3, None),
        Some(MouseAction::OpenContextMenu { row: 1, x: 5, y: 11 })
    );
    assert_eq!(
        mouse_action_for_event(MouseKind::ScrollDown, 0, 0, 120, 40, 3, None),
        Some(MouseAction::ScrollDown)
    );
    assert_eq!(mouse_action_for_event(MouseKind::ScrollDown, 0, 0, 80, 40, 3, None), None);
}
