use hugdocker::config::AppConfig;
use hugdocker::domain::{Container, ContainerState, DockerSnapshot, HealthStatus};
use hugdocker::health::{analyze_snapshot, project_fingerprints};
use hugdocker::resources::{sample_totals, SampleBytes};
use hugdocker::sampling::{keeps_previous, pending_view, sampling_step, PendingView, SamplingStep};
use hugdocker::tui::log_selection;

fn row(failed: bool, base: u64) -> SampleBytes {
    SampleBytes {
        failed,
        memory_usage_bytes: base,
        memory_limit_bytes: base * 10,
        network_rx_bytes: base + 1,
        network_tx_bytes: base + 2,
        block_read_bytes: base + 3,
        block_write_bytes: base + 4,
    }
}

#[test]
fn sample_totals_skip_failed_rows_and_count_them() {
    let totals = sample_totals(&vec![row(false, 100), row(true, 7), row(false, 50)]).unwrap();
    assert_eq!(totals.containers, 3);
    assert_eq!(totals.error_count, 1);
    assert_eq!(totals.memory_usage_bytes, 150);
    assert_eq!(totals.memory_limit_bytes, 1500);
    assert_eq!(totals.network_rx_bytes, 152);
    assert_eq!(totals.network_tx_bytes, 154);
    assert_eq!(totals.block_read_bytes, 156);
    assert_eq!(totals.block_write_bytes, 158);
    let empty = sample_totals(&vec![]).unwrap();
    assert_eq!((empty.containers, empty.error_count, empty.memory_usage_bytes), (0, 0, 0));
}

#[test]
fn sample_totals_refuse_a_total_past_u64() {
    let mut big = row(false, 1);
    big.block_write_bytes = u64::MAX;
    assert!(sample_totals(&vec![big, row(false, 1)]).is_none());
    assert!(sample_totals(&vec![big, row(true, 1)]).is_some());
}

#[test]
fn sampling_schedule_steps() {
    assert_eq!(sampling_step(false, true, Some("a"), None, true), SamplingStep::Abort);
    assert_eq!(sampling_step(false, false, Some("a"), None, true), SamplingStep::Idle);
    assert_eq!(sampling_step(true, true, Some("a"), None, true), SamplingStep::Idle);
    assert_eq!(sampling_step(true, false, None, Some("a"), true), SamplingStep::Clear);
    assert_eq!(
        sampling_step(true, false, Some("a"), Some("b"), false),
        SamplingStep::Sample { fresh_project: true }
    );
    assert_eq!(sampling_step(true, false, Some("a"), Some("a"), false), SamplingStep::Idle);
    assert_eq!(
        sampling_step(true, false, Some("a"), Some("a"), true),
        SamplingStep::Sample { fresh_project: false }
    );
}

#[test]
fn pending_panel_keeps_a_taken_sample_of_the_same_project() {
    assert_eq!(pending_view("", Some(("", 5))), PendingView::Nothing);
    assert_eq!(pending_view("shop", Some(("shop", 5))), PendingView::KeepStale);
    assert_eq!(pending_view("shop", Some(("shop", 0))), PendingView::Loading);
    assert_eq!(pending_view("shop", Some(("blog", 5))), PendingView::Loading);
    assert_eq!(pending_view("shop", None), PendingView::Loading);
    assert!(keeps_previous(Some(("shop", false)), "shop"));
    assert!(!keeps_previous(Some(("shop", true)), "shop"));
    assert!(!keeps_previous(Some(("blog", false)), "shop"));
    assert!(!keeps_previous(None, "shop"));
}

fn container(id: &str, project: &str, state: ContainerState) -> Container {
    Container {
        id: id.into(),
        name: format!("{id}_1"),
        image: "example/app:latest".into(),
        state,
        status: "Up".into(),
        compose_project: Some(project.into()),
        stack_namespace: None,
        labels: vec![],
        networks: vec![],
        volumes: vec![],
        ports: vec![],
    }
}

fn snapshot() -> DockerSnapshot {
    DockerSnapshot::from_containers(
        vec![
            container("a", "shop", ContainerState::Restarting),
            container("b", "shop", ContainerState::Restarting),
            container("c", "shop", ContainerState::Running),
            container("d", "blog", ContainerState::Running),
            container("e", "docs", ContainerState::Paused),
        ],
        vec![],
        vec![],
        vec![],
        &AppConfig::default(),
    )
}

#[test]
fn log_selection_clamps_to_the_last_container() {
    let snap = snapshot();
    let shop = snap.project("shop").unwrap();
    assert_eq!(log_selection(shop, 1), (1, 2, "b".to_string()));
    assert_eq!(log_selection(shop, 9), (2, 3, "c".to_string()));
    let mut empty = shop.clone();
    empty.containers.clear();
    assert_eq!(log_selection(&empty, 4), (0, 0, "shop".to_string()));
}

#[test]
fn one_restart_loop_finding_per_restarting_container_and_status() {
    let report = analyze_snapshot(&snapshot());
    let shop = report.iter().find(|h| h.project == "shop").unwrap();
    let loops = shop.findings.iter().filter(|f| f.starts_with("restart loop: ")).count();
    assert_eq!(loops, 2);
    assert_eq!(shop.status, HealthStatus::Critical);
    let blog = report.iter().find(|h| h.project == "blog").unwrap();
    assert_eq!(blog.status, HealthStatus::Healthy);
    let docs = report.iter().find(|h| h.project == "docs").unwrap();
    assert_eq!(docs.status, HealthStatus::Warning);
}

#[test]
fn fingerprints_are_ordered_and_signals_sorted() {
    let fps = project_fingerprints(&snapshot());
    let mut names: Vec<String> = fps.iter().map(|f| f.project.clone()).collect();
    names.sort();
    assert_eq!(names, vec!["blog", "docs", "shop"]);
    for pair in fps.windows(2) {
        assert!(
            pair[0].risk_score > pair[1].risk_score
                || (pair[0].risk_score == pair[1].risk_score && pair[0].project <= pair[1].project)
        );
    }
    for f in &fps {
        assert!(f.signals.windows(2).all(|w| w[0] < w[1]));
        assert!(f.risk_score <= 100);
    }
    assert_eq!(fps[0].project, "shop");
}

fn with_images(id: &str, project: &str, image: &str, ports: Vec<String>) -> Container {
    let mut c = container(id, project, ContainerState::Running);
    c.image = image.into();
    c.ports = ports;
    c
}

#[test]
fn global_findings_name_bloat_and_shared_ports() {
    let mut containers = Vec::new();
    for n in 0..5 {
        containers.push(with_images(&format!("i{n}"), "fat", &format!("img{n}:1"), vec![]));
    }
    containers.push(with_images("p1", "alpha", "x:1", vec!["0.0.0.0:8080->80/tcp".into()]));
    containers.push(with_images("p2", "beta", "y:1", vec!["127.0.0.1:8080->80/tcp".into()]));
    let mut stopped = container("s1", "idle", ContainerState::Exited);
    stopped.status = "Exited (0) 3 days ago".into();
    containers.push(stopped);
    let snap = DockerSnapshot::from_containers(containers, vec![], vec![], vec![], &AppConfig::default());
    let findings = hugdocker::health::global_findings(&snap);
    assert!(findings.contains(&"项目 fat 引用 5 个镜像，疑似镜像膨胀。".to_string()));
    assert!(findings.contains(&"端口 8080 同时出现在多个项目: alpha, beta".to_string()));
    assert_eq!(findings.iter().filter(|f| f.starts_with("项目 ")).count(), 1);

    let fps = project_fingerprints(&snap);
    let alpha = fps.iter().find(|f| f.project == "alpha").unwrap();
    assert!(alpha.signals.contains(&"port_conflict:8080".to_string()));
    assert!(alpha.signals.contains(&"public_bind".to_string()));
    let fat = fps.iter().find(|f| f.project == "fat").unwrap();
    assert!(fat.signals.contains(&"image_bloat".to_string()));
    assert!(!fat.signals.contains(&"inactive".to_string()));
    let idle = fps.iter().find(|f| f.project == "idle").unwrap();
    assert!(idle.signals.contains(&"inactive".to_string()));
    assert!(idle.signals.contains(&"stale_stopped:1".to_string()));
    assert_eq!(idle.suggested_command, "hugdocker safe-prune --dry-run");
    assert_eq!(alpha.suggested_command, "hugdocker inspect alpha");
}
