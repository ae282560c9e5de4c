use fp::app_config::{AppConfig, AppConfigStore};
use fp::commands::{status_all_health, cmd_feature_new, cmd_feature_set_test, cmd_feature_status, cmd_feature_status_with_client};
use fp::feature::feature_status;
use fp::process::{DepRecord, ProcessRecord, ProcessState};

fn record(pr: u64, envelope: &str, branch: &str, pid: Option<u32>, configs: &[&str]) -> ProcessRecord {
    ProcessRecord {
        pr,
        expected_branch: branch.to_string(),
        pid,
        feature_envelope: Some(envelope.to_string()),
        worktree: "/repo".to_string(),
        app_config_names: configs.iter().map(|c| c.to_string()).collect(),
    }
}

fn config(name: &str, health_check: Option<&str>, ephemeral: bool) -> AppConfig {
    AppConfig {
        name: name.into(),
        bootstrap: "true".into(),
        teardown: "true".into(),
        startup_timeout: "1s".into(),
        health_check: health_check.map(|h| h.to_string()),
        ephemeral,
        main_worktree: None,
        setup: None,
        volume_check: None,
    }
}

#[test]
fn cmd_feature_status_governs_flags_closed_prs() {
    let mut ps = ProcessState::new();
    cmd_feature_new(&mut ps, "auth-refactor");
    ps.put_record(record(99, "auth-refactor", "feat/z", None, &[]));
    let store = AppConfigStore::open("config.toml".into());
    let output = cmd_feature_status_with_client(&ps, &store, "auth-refactor", &[], &[], &[], &vec![], &[99]);
    assert!(output.contains("merged"), "must flag PR #99 as merged: {}", output);
    assert!(output.contains("fp feature remove"), "must show remove hint: {}", output);
}

#[test]
fn cmd_feature_status_governs_shows_daemonize_hint_when_stopped() {
    let mut ps = ProcessState::new();
    ps.put_record(record(22, "my-feat", "", None, &[]));
    cmd_feature_new(&mut ps, "my-feat");
    let store = AppConfigStore::open("config.toml".into());
    let output = cmd_feature_status(&ps, &store, "my-feat", &[], &[], &[], &vec![]);
    assert!(output.contains("daemonize") || output.contains("foreground"),
        "cmd_feature_status must hint about daemonizing when PR is stopped, got: {}", output);
}

#[test]
fn cmd_feature_status_governs_shows_recovery_hint_when_stopped_but_healthy() {
    let mut store = AppConfigStore::open("config.toml".into());
    store.save_app_config(config("svc", Some("true"), false));
    let mut ps = ProcessState::new();
    ps.put_record(record(55, "my-feat", "", None, &["svc"]));
    cmd_feature_new(&mut ps, "my-feat");
    // The health check `true` passes.
    let output = cmd_feature_status(&ps, &store, "my-feat", &[], &[55], &[], &vec![]);
    assert!(output.contains("healthy but untracked — another process may be listening"),
        "cmd_feature_status must warn 'healthy but untracked' when PR is stopped but healthy, got: {}", output);
}

#[test]
fn cmd_feature_status_governs_shows_test_command_when_set() {
    let mut ps = ProcessState::new();
    cmd_feature_new(&mut ps, "my-feat");
    cmd_feature_set_test(&mut ps, "my-feat", "pytest tests/e2e/test_feature.py").unwrap();
    let store = AppConfigStore::open("config.toml".into());
    let output = cmd_feature_status(&ps, &store, "my-feat", &[], &[], &[], &vec![]);
    assert!(output.contains("pytest tests/e2e/test_feature.py"),
        "cmd_feature_status must show test command when set, got: {}", output);
}

#[test]
fn cmd_feature_status_governs_shows_run_hint_when_test_set() {
    let mut ps = ProcessState::new();
    cmd_feature_new(&mut ps, "my-feat");
    cmd_feature_set_test(&mut ps, "my-feat", "pytest tests/e2e").unwrap();
    let store = AppConfigStore::open("config.toml".into());
    let output = cmd_feature_status(&ps, &store, "my-feat", &[], &[], &[], &vec![]);
    assert!(output.contains("fp feature test my-feat"),
        "cmd_feature_status must show run hint when test command is set, got: {}", output);
}

#[test]
fn cmd_feature_status_governs_shows_dep_records_in_text_output() {
    let mut store = AppConfigStore::open("config.toml".into());
    store.save_app_config(config("backend", Some("true"), true));
    let mut ps = ProcessState::new();
    cmd_feature_new(&mut ps, "my-feat");
    ps.put_dep_record("my-feat:backend", DepRecord {
        app_config_name: "backend".into(),
        feature_envelope: "my-feat".into(),
        pid: None,
        worktree: "/repo".into(),
    });
    let out = cmd_feature_status(&ps, &store, "my-feat", &[], &[], &[], &vec!["my-feat:backend".to_string()]);
    assert!(out.contains("backend"), "feature status must include dep slot 'backend' in output, got: {}", out);
    assert_eq!(out, "  dep backend  (shared) ✓ healthy");
}

#[test]
fn cmd_feature_status_governs_shows_app_config_names_per_pr() {
    let mut ps = ProcessState::new();
    ps.put_record(record(77, "my-feat", "feat/foo", Some(4242), &["frontend", "backend"]));
    cmd_feature_new(&mut ps, "my-feat");
    let store = AppConfigStore::open("config.toml".into());
    let output = cmd_feature_status(&ps, &store, "my-feat", &[4242], &[], &[(77, "feat/foo".to_string())], &vec![]);
    assert_eq!(output, "  PR #77 [frontend, backend]  ✓ running ✓ branch ok");
}

#[test]
fn feature_status_is_ordered_by_pr() {
    let mut store = AppConfigStore::open("config.toml".into());
    store.save_app_config(config("eph", Some("test -d dist"), true));
    let mut ps = ProcessState::new();
    ps.put_record(record(30, "f", "feat/c", Some(7), &["eph"]));
    ps.put_record(record(10, "f", "feat/a", Some(8), &[]));
    ps.put_record(record(20, "g", "feat/b", Some(7), &[]));
    let s = feature_status(&ps, &store, "f", &[7, 8], &[30], &[(10, "feat/other".to_string())]);
    assert_eq!(s.len(), 2);
    assert_eq!((s[0].pr, s[0].pid_alive, s[0].service_healthy, s[0].branch_ok), (10, true, None, Some(false)));
    // An ephemeral configuration runs no tracked process.
    assert_eq!((s[1].pr, s[1].pid_alive, s[1].service_healthy, s[1].branch_ok), (30, false, Some(true), None));
}

#[test]
fn feature_status_of_empty_envelope() {
    let mut ps = ProcessState::new();
    cmd_feature_new(&mut ps, "my-feat");
    let store = AppConfigStore::open("config.toml".into());
    assert_eq!(cmd_feature_status(&ps, &store, "my-feat", &[], &[], &[], &vec![]), "Feature 'my-feat' has no member PRs.");
    cmd_feature_set_test(&mut ps, "my-feat", "make e2e").unwrap();
    assert_eq!(cmd_feature_status(&ps, &store, "my-feat", &[], &[], &[], &vec![]),
        "Feature 'my-feat' has no member PRs.\n  Test: make e2e\n  Run: fp feature test my-feat");
}

#[test]
fn cmd_status_all_governs_shows_unmanaged_hint_when_service_healthy_but_pid_dead() {
    let mut store = AppConfigStore::open("config.toml".into());
    store.save_app_config(config("svc", Some("true"), false));
    store.save_app_config(config("eph", Some("true"), true));
    let mut ps = ProcessState::new();
    ps.put_record(record(42, "f", "feat/unmanaged", Some(5), &["svc"]));
    ps.put_record(record(43, "f", "feat/eph", None, &["eph"]));
    let label = status_all_health(&ps, &store, 42, &[], &[42, 43]).unwrap();
    assert!(label.contains("healthy but untracked — another process may be listening"), "got: {}", label);
    assert_eq!(status_all_health(&ps, &store, 42, &[5], &[]).unwrap(), "✓ up");
    // An ephemeral configuration is never reported as an untracked service.
    assert_eq!(status_all_health(&ps, &store, 43, &[], &[43]).unwrap(), "✗ down");
    assert_eq!(status_all_health(&ps, &store, 44, &[], &[]), None);
}
