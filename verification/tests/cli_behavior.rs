use hugdocker::cli::{confirmation_decision, format_stats_line, ConfirmationDecision};
use hugdocker::domain::OperationAction;
use hugdocker::ops::OperationPlan;

fn plan(action: OperationAction, token: Option<&str>) -> OperationPlan {
    OperationPlan {
        action,
        projects: vec!["myapp".to_string()],
        containers: vec!["web".to_string()],
        networks: Vec::new(),
        volumes: Vec::new(),
        images: Vec::new(),
        confirmation_token: token.map(str::to_string),
        summary: "test plan".to_string(),
        warnings: Vec::new(),
    }
}

#[test]
fn purge_yes_without_token_rejects_instead_of_prompting() {
    let plan = plan(OperationAction::Purge, Some("DELETE-myapp"));

    let err = confirmation_decision(&plan, true, None).expect_err("purge needs token");

    assert!(err.to_string().contains("--confirm-token"));
}

#[test]
fn matching_confirm_token_allows_scripted_purge() {
    let plan = plan(OperationAction::Purge, Some("DELETE-myapp"));

    let decision = confirmation_decision(&plan, false, Some("DELETE-myapp")).expect("decision");

    assert_eq!(decision, ConfirmationDecision::Execute);
}

#[test]
fn prune_yes_without_token_rejects_instead_of_executing() {
    let plan = plan(OperationAction::Prune, Some("PRUNE"));

    let err = confirmation_decision(&plan, true, None).expect_err("prune needs token");

    assert!(err.to_string().contains("--confirm-token PRUNE"));
}

#[test]
fn stats_line_includes_network_and_block_io_totals() {
    assert_eq!(
        format_stats_line("web", 10, 100, 42, 1_024, 2_048, 4_096, 8_192),
        "web mem 10/100 cpu_total 42 net_rx 1024 net_tx 2048 io_read 4096 io_write 8192"
    );
}

#[test]
fn remove_yes_skips_prompt_but_wrong_token_cancels() {
    let plan = plan(OperationAction::Remove, Some("REMOVE-myapp"));
    assert_eq!(
        confirmation_decision(&plan, true, None),
        Ok(ConfirmationDecision::Execute)
    );
    assert_eq!(
        confirmation_decision(&plan, false, None),
        Ok(ConfirmationDecision::Prompt)
    );
    let err = confirmation_decision(&plan, true, Some("REMOVE-other")).expect_err("mismatch");
    assert_eq!(err, "确认令牌不匹配，已取消。");
}

#[test]
fn plan_without_token_executes_directly() {
    let plan = plan(OperationAction::Stop, None);
    assert_eq!(
        confirmation_decision(&plan, false, None),
        Ok(ConfirmationDecision::Execute)
    );
}
