use hugdocker::domain::{Container, ContainerState, Project, ProjectKind};
use hugdocker::output::project_line;
use hugdocker::recipes::builtin_recipes;
use hugdocker::telemetry::{event_time_ms, format_timeline_event, timeline_event, TimelineEvent};

fn project(name: &str, running: usize, stopped: usize) -> Project {
    let mut containers = Vec::new();
    for i in 0..(running + stopped) {
        containers.push(Container {
            id: format!("{name}-{i}"),
            name: format!("{name}_{i}"),
            image: "img".into(),
            state: if i < running {
                ContainerState::Running
            } else {
                ContainerState::Exited
            },
            status: "Up".into(),
            compose_project: None,
            stack_namespace: None,
            labels: vec![],
            networks: vec![],
            volumes: vec![],
            ports: vec![],
        });
    }
    Project {
        name: name.into(),
        kind: ProjectKind::Compose,
        containers,
        running,
        restarting: 0,
        paused: 0,
        unhealthy: 0,
        stopped,
        networks: vec!["net".into()],
        volumes: vec![],
        images: vec![],
        ports: vec![],
    }
}

#[test]
fn recipes_are_listed_in_order_with_risk() {
    let recipes = builtin_recipes();
    let names: Vec<&str> = recipes.iter().map(|r| r.name).collect();
    assert_eq!(
        names,
        vec!["panic-stop", "rescue-unhealthy", "preflight-delete", "safe-cleanup"]
    );
    assert_eq!(recipes[3].command, "hugdocker safe-prune --dry-run");
    assert_eq!(recipes[2].risk, "high");
}

#[test]
fn project_line_pads_name_and_counts() {
    let line = project_line(&project("shop", 2, 1));
    assert_eq!(
        line,
        format!(
            "[UP|Compose] {:<24} active {:>2}/{:<2} stopped {:>2} networks {:>2} volumes {:>2}",
            "shop", 2, 3, 1, 1, 0
        )
    );
    assert_eq!(
        line,
        "[UP|Compose] shop                     active  2/3  stopped  1 networks  1 volumes  0"
    );
}

#[test]
fn project_line_keeps_long_names_whole() {
    let long = "a-very-long-project-name-over-24";
    let line = project_line(&project(long, 0, 0));
    assert!(line.starts_with("[IDLE|Compose] a-very-long-project-name-over-24 active  0/0 "));
}

#[test]
fn timeline_line_shows_time_source_action_actor_and_message() {
    let event = TimelineEvent {
        ts: 1700000000123,
        source: "container".into(),
        action: "start".into(),
        actor: "web_1".into(),
        message: "web_1 start".into(),
    };
    assert_eq!(
        format_timeline_event(&event),
        "1700000000123 [container:start] web_1 - web_1 start"
    );
    let built = timeline_event(5, "image".into(), "pull".into(), "redis".into());
    assert_eq!(built.message, "redis pull");
}

#[test]
fn event_time_prefers_nanoseconds_then_seconds_then_now() {
    assert_eq!(event_time_ms(Some(2_500_000_000), Some(9), 7), 2_500);
    assert_eq!(event_time_ms(None, Some(3), 7), 3_000);
    assert_eq!(event_time_ms(None, None, 7), 7);
    assert_eq!(event_time_ms(Some(-5), None, 7), 0);
    assert_eq!(event_time_ms(None, Some(-5), 7), 0);
}
