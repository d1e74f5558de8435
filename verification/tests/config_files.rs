use hugdocker::config::{
    audit_log_path, config_path, legacy_config_path, load_config, state_dir_path,
    timeline_log_path, AppConfig,
};

const README_EXAMPLE: &str = r#"[tui]
refresh_ms = 2000
log_tail = 200
default_filter = ""
theme = "industrial"

[safety]
typed_confirmation = true
allow_yes_for_purge = false

[group_exact]
"mcphub" = "devtools"

[group_prefix]
"redis-" = "cache"
"postgres-" = "database"

[group_image_prefix]
"redis:" = "cache"
"postgres:" = "database"
"#;

fn pair(a: &str, b: &str) -> (String, String) {
    (a.to_string(), b.to_string())
}

#[test]
fn parsed_settings_keep_the_group_tables_of_the_text() {
    let mut parsed = AppConfig::default();
    parsed.tui.theme = "industrial".into();
    let config = load_config(None, Some(README_EXAMPLE.to_string()), Some(parsed));
    assert_eq!(config.tui.theme, "industrial");
    assert!(config.safety.typed_confirmation);
    assert!(!config.safety.allow_yes_for_purge);
    assert_eq!(config.groups.exact, vec![pair("mcphub", "devtools")]);
    assert_eq!(config.groups.prefix, vec![pair("redis-", "cache"), pair("postgres-", "database")]);
    assert_eq!(
        config.groups.image_prefix,
        vec![pair("redis:", "cache"), pair("postgres:", "database")]
    );
}

#[test]
fn parsed_settings_without_group_tables_keep_their_own_rules() {
    let mut parsed = AppConfig::default();
    parsed.groups.prefix.push(pair("web-", "frontend"));
    let config = load_config(Some("[tui]\ntheme = \"ocean\"\n".into()), None, Some(parsed.clone()));
    assert_eq!(config, parsed);
}

#[test]
fn unreadable_settings_fall_back_to_defaults_with_group_tables() {
    let config = load_config(Some(README_EXAMPLE.to_string()), None, None);
    assert_eq!(config.tui.theme, "cockpit");
    assert_eq!(config.groups.exact, vec![pair("mcphub", "devtools")]);
    assert_eq!(load_config(None, None, None), AppConfig::default());
}

#[test]
fn state_files_live_under_the_dockerctl_state_directory() {
    let home = Some("/home/ops".to_string());
    let state = state_dir_path(&None, &home);
    assert_eq!(state.as_deref(), Some("/home/ops/.local/state/dockerctl"));
    assert_eq!(
        audit_log_path(&state).as_deref(),
        Some("/home/ops/.local/state/dockerctl/audit.log")
    );
    assert_eq!(
        timeline_log_path(&state).as_deref(),
        Some("/home/ops/.local/state/dockerctl/timeline.jsonl")
    );
    assert_eq!(
        state_dir_path(&Some("/var/state".into()), &home).as_deref(),
        Some("/var/state/dockerctl")
    );
    assert_eq!(state_dir_path(&None, &None), None);
    assert_eq!(
        config_path(&None, &home).as_deref(),
        Some("/home/ops/.config/hugdocker/config.toml")
    );
    assert_eq!(
        legacy_config_path(&None, &home).as_deref(),
        Some("/home/ops/.config/dockerctl/config.toml")
    );
}
