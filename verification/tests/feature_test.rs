use fp::app_config::{AppConfig, AppConfigStore};
use fp::commands::{cmd_feature_add_dep, cmd_feature_logs, cmd_feature_new, cmd_feature_rebuild, cmd_feature_remove,
    cmd_feature_test, feature_log_files, feature_test_command};
use fp::feature::{check_conflicts, feature_add, feature_add_dep, feature_list, feature_list_running, feature_new,
    resolve_worktree, ConflictResult};
use fp::process::{ProcessRecord, ProcessState};
use fp::services::{
    dep_instance, dep_rebuilt_message, dep_started, feature_down, feature_rebuild, feature_up, instance_from_lowered,
    member_instance, start_refusal, RebuildStep, Teardown, UpStep,
};
use fp::worktree::worktree_path;

fn echo_config(name: &str) -> AppConfig {
    AppConfig {
        name: name.into(),
        bootstrap: "echo bootstrap-ok".into(),
        teardown: "echo teardown-ok".into(),
        startup_timeout: "5s".into(),
        health_check: None,
        ephemeral: false,
        main_worktree: None,
        setup: None,
        volume_check: None,
    }
}

fn record(pr: u64, branch: &str, envelope: Option<&str>, configs: &[&str]) -> ProcessRecord {
    ProcessRecord {
        pr,
        expected_branch: branch.into(),
        pid: None,
        feature_envelope: envelope.map(|e| e.to_string()),
        worktree: "/tmp/wt".into(),
        app_config_names: configs.iter().map(|c| c.to_string()).collect(),
    }
}

fn dep_keys(state: &ProcessState) -> Vec<String> {
    state.dep_records().iter().map(|(k, _)| k.clone()).collect()
}

/// Runs the starting work as the command line does, with made-up process ids:
/// a recorded process counts as alive, and a configured health check passes.
fn run_up(state: &mut ProcessState, configs: &AppConfigStore, name: &str, root: &str, first_pid: u32) -> Result<Vec<String>, String> {
    let mut msgs = Vec::new();
    let mut pid = first_pid;
    for step in feature_up(state, configs, name) {
        match step {
            UpStep::Note { message } => msgs.push(message),
            UpStep::Member { pr, pid: old_pid, expected_branch, config } => {
                if let Some(m) = start_refusal(pr, &config, old_pid.is_some(), config.health_check.is_some()) {
                    return Err(m);
                }
                state.mark_started(pr, pid, &resolve_worktree(root, &expected_branch));
                msgs.push(format!("PR #{}: started ({})", pr, config.name));
            }
            UpStep::Dep { key, cfg_name, config: _, instance: _ } => {
                msgs.push(dep_started(state, name, &key, &cfg_name, pid, root));
            }
        }
        pid += 1;
    }
    Ok(msgs)
}

#[test]
fn feature_governs_new_creates_envelope() {
    let mut ps = ProcessState::new();
    feature_new(&mut ps, "auth-refactor");
    let list = feature_list(&ps);
    assert!(list.iter().any(|f| f.name == "auth-refactor"),
        "feature_new must create envelope 'auth-refactor', got: {:?}", list.iter().map(|f| &f.name).collect::<Vec<_>>());
}

#[test]
fn feature_governs_add_adds_pr_to_envelope() {
    let mut ps = ProcessState::new();
    feature_new(&mut ps, "my-feature");
    feature_add(&mut ps, "my-feature", 42, &[], "feat/x", "");
    let list = feature_list(&ps);
    let envelope = list.iter().find(|f| f.name == "my-feature").unwrap();
    assert!(envelope.prs.contains(&42), "feature_add must add PR 42 to 'my-feature', got: {:?}", envelope.prs);
}

#[test]
fn feature_governs_list_returns_empty_when_no_envelopes() {
    let ps = ProcessState::new();
    let list = feature_list(&ps);
    assert!(list.is_empty(), "feature_list must return empty when no envelopes, got: {:?}", list);
}

#[test]
fn feature_governs_check_conflicts_no_conflict_when_no_live_envelopes() {
    let mut ps = ProcessState::new();
    feature_new(&mut ps, "my-feature");
    let result = check_conflicts(&ps, "my-feature", &[]);
    assert!(matches!(result, ConflictResult::NoConflict),
        "check_conflicts must return NoConflict when nothing else is live, got: {:?}", result);
}

#[test]
fn feature_governs_list_running_excludes_envelopes_with_no_live_pid() {
    let mut ps = ProcessState::new();
    feature_new(&mut ps, "dead-feature");
    let running = feature_list_running(&ps, &[]);
    assert!(running.is_empty(),
        "feature_list_running must exclude envelopes with no live PIDs, got: {:?}", running.iter().map(|f| &f.name).collect::<Vec<_>>());
}

#[test]
fn feature_governs_add_with_configs_stores_app_config_names() {
    let mut ps = ProcessState::new();
    feature_add(&mut ps, "my-feature", 7, &["api".to_string(), "worker".to_string()], "", "");
    let rec = ps.record(7).unwrap();
    assert_eq!(rec.app_config_names, vec!["api", "worker"],
        "feature_add must store --config values in app_config_names, got: {:?}", rec.app_config_names);
}

#[test]
fn feature_governs_bootstrap_pr_records_activation() {
    let mut ps = ProcessState::new();
    ps.mark_started(42, 4242, "/tmp/wt42");
    assert!(ps.record(42).is_some(), "bootstrap_pr must record PR 42 in process state");
}

#[test]
fn feature_governs_bootstrap_pr_stores_worktree_path() {
    let mut ps = ProcessState::new();
    ps.mark_started(42, 4242, "/tmp/wt42");
    assert_eq!(ps.record(42).unwrap().worktree, "/tmp/wt42", "bootstrap_pr must store worktree path");
}

#[test]
fn feature_governs_teardown_pr_clears_pid_preserves_record() {
    let mut ps = ProcessState::new();
    ps.mark_started(42, 4242, "/tmp/wt42");
    ps.mark_stopped(42);
    assert!(ps.record(42).is_some(), "teardown_pr must preserve record for PR 42 (for re-up)");
    assert!(ps.record(42).unwrap().pid.is_none(), "teardown_pr must clear pid for PR 42");
}

#[test]
fn bootstrap_pr_governs_preserves_feature_envelope_and_app_config_names_on_existing_record() {
    let mut ps = ProcessState::new();
    ps.put_record(record(55, "feat/x", Some("my-feat"), &["svc"]));
    ps.mark_started(55, 777, "/tmp/wt55");
    let rec = ps.record(55).unwrap();
    assert_eq!(rec.feature_envelope.as_deref(), Some("my-feat"), "bootstrap_pr must not overwrite feature envelope on existing record");
    assert_eq!(rec.app_config_names, vec!["svc"], "bootstrap_pr must not overwrite app_config_names on existing record");
    assert_eq!(rec.expected_branch, "feat/x", "bootstrap_pr must not overwrite expected_branch on existing record");
    assert_eq!(rec.pid, Some(777), "bootstrap_pr must set pid on existing record");
}

#[test]
fn teardown_pr_governs_preserves_record_with_feature_envelope() {
    let mut ps = ProcessState::new();
    let mut rec = record(88, "feat/x", Some("my-feat"), &["svc"]);
    rec.pid = Some(99999);
    ps.put_record(rec);
    ps.mark_stopped(88);
    let rec = ps.record(88).unwrap();
    assert!(rec.pid.is_none(), "teardown_pr must clear pid after teardown");
    assert_eq!(rec.feature_envelope.as_deref(), Some("my-feat"), "teardown_pr must preserve feature envelope after teardown");
}

#[test]
fn feature_governs_up_stores_dep_in_dep_records_not_pr0() {
    let mut configs = AppConfigStore::open("config.toml".into());
    configs.save_app_config(echo_config("notifications-svc"));
    let mut ps = ProcessState::new();
    feature_new(&mut ps, "my-feature");
    feature_add_dep(&mut ps, "my-feature", "notifications-svc");
    run_up(&mut ps, &configs, "my-feature", "/repo", 100).unwrap();
    assert!(dep_keys(&ps).contains(&"my-feature:notifications-svc".to_string()),
        "feature_up must store dep in dep_records[\"my-feature:notifications-svc\"], got: {:?}", dep_keys(&ps));
    assert!(ps.record(0).is_none(), "feature_up must not use pr=0 sentinel for dep slots");
}

#[test]
fn feature_governs_dep_records_use_repo_root_as_worktree() {
    let mut configs = AppConfigStore::open("config.toml".into());
    configs.save_app_config(echo_config("notifications-svc"));
    let mut ps = ProcessState::new();
    feature_new(&mut ps, "my-feature");
    feature_add_dep(&mut ps, "my-feature", "notifications-svc");
    run_up(&mut ps, &configs, "my-feature", "/repo", 100).unwrap();
    let rec = &ps.dep_records()[0].1;
    assert_eq!(rec.worktree, "/repo", "dep_record worktree must equal repo_root, not cfg.main_worktree");
}

#[test]
fn feature_governs_multiple_deps_each_get_own_dep_record() {
    let mut configs = AppConfigStore::open("config.toml".into());
    configs.save_app_config(echo_config("backend"));
    configs.save_app_config(echo_config("staff"));
    configs.save_app_config(echo_config("mock-portal"));
    let mut ps = ProcessState::new();
    feature_new(&mut ps, "b-form");
    feature_add_dep(&mut ps, "b-form", "backend");
    feature_add_dep(&mut ps, "b-form", "staff");
    feature_add_dep(&mut ps, "b-form", "mock-portal");
    run_up(&mut ps, &configs, "b-form", "/repo", 100).unwrap();
    for dep in &["backend", "staff", "mock-portal"] {
        let key = format!("b-form:{}", dep);
        assert!(dep_keys(&ps).contains(&key), "dep_records must contain key '{}', got: {:?}", key, dep_keys(&ps));
    }
}

#[test]
fn feature_governs_down_tears_down_dep_records_for_envelope() {
    let mut configs = AppConfigStore::open("config.toml".into());
    configs.save_app_config(echo_config("backend"));
    let mut ps = ProcessState::new();
    feature_new(&mut ps, "my-feature");
    feature_add_dep(&mut ps, "my-feature", "backend");
    run_up(&mut ps, &configs, "my-feature", "/repo", 100).unwrap();
    assert!(dep_keys(&ps).contains(&"my-feature:backend".to_string()),
        "pre-condition: dep_records must have my-feature:backend before down");
    let (msgs, teardowns) = feature_down(&mut ps, &configs, "my-feature");
    assert!(!dep_keys(&ps).contains(&"my-feature:backend".to_string()),
        "feature_down must remove dep_records for the envelope, got: {:?}", dep_keys(&ps));
    assert_eq!(msgs, vec!["dep backend (main): stopped".to_string()]);
    match &teardowns[..] {
        [Teardown::Dep { worktree, command, .. }] => {
            assert_eq!(worktree, "/repo");
            assert_eq!(command, "echo teardown-ok");
        }
        _ => panic!("expected one shared-instance teardown"),
    }
}

#[test]
fn feature_governs_rebuild_pr0_reruns_dep_bootstrap_and_updates_pid() {
    let mut configs = AppConfigStore::open("config.toml".into());
    configs.save_app_config(echo_config("backend"));
    let mut ps = ProcessState::new();
    feature_new(&mut ps, "my-feature");
    feature_add_dep(&mut ps, "my-feature", "backend");
    run_up(&mut ps, &configs, "my-feature", "/repo", 100).unwrap();
    let pid_before = ps.dep_records()[0].1.pid;
    let mut msgs = Vec::new();
    for step in feature_rebuild(&ps, &configs, "my-feature", Some(0)) {
        match step {
            RebuildStep::Dep { key, cfg_name, command, .. } => {
                assert_eq!(command, "echo bootstrap-ok");
                ps.set_dep_pid(&key, 200);
                msgs.push(dep_rebuilt_message(&cfg_name));
            }
            _ => panic!("only the shared instance is rebuilt for PR 0"),
        }
    }
    let pid_after = ps.dep_records()[0].1.pid;
    assert!(pid_after.is_some(), "rebuild must set a pid in dep_records");
    assert_ne!(pid_before, pid_after, "rebuild must update dep_records pid to new bootstrap process");
    assert_eq!(msgs, vec!["dep backend (main): rebuilt".to_string()]);
}

#[test]
fn feature_up_governs_errors_when_service_healthy_but_pid_dead() {
    let mut configs = AppConfigStore::open("config.toml".into());
    let mut cfg = echo_config("svc");
    cfg.health_check = Some("true".into());
    configs.save_app_config(cfg);
    let mut ps = ProcessState::new();
    feature_new(&mut ps, "my-feat");
    ps.put_record(record(99, "", Some("my-feat"), &["svc"]));
    let result = run_up(&mut ps, &configs, "my-feat", "/repo", 100);
    assert!(result.is_err(), "feature_up must error when service is healthy but pid is dead (untracked process)");
    let err = result.unwrap_err();
    assert!(err.contains("healthy but untracked"), "feature_up error must mention 'healthy but untracked', got: {}", err);
}

#[test]
fn cmd_feature_rebuild_governs_rejects_persistent_members() {
    let mut configs = AppConfigStore::open("config.toml".into());
    configs.save_app_config(echo_config("svc"));
    let mut ps = ProcessState::new();
    feature_new(&mut ps, "my-feature");
    ps.put_record(record(10, "feat/a", Some("my-feature"), &["svc"]));
    let msgs: Vec<String> = feature_rebuild(&ps, &configs, "my-feature", None).into_iter().map(|s| match s {
        RebuildStep::Note { message } => message,
        _ => panic!("a persistent app is not rebuilt"),
    }).collect();
    let result = cmd_feature_rebuild("my-feature", &msgs);
    assert!(result.contains("persistent"), "cmd_feature_rebuild must error or warn for persistent app, got: {:?}", result);
}

#[test]
fn cmd_feature_add_dep_governs_stores_dep_in_envelope_deps() {
    let mut ps = ProcessState::new();
    let msg = cmd_feature_add_dep(&mut ps, "my-feature", "notifications-svc");
    assert!(msg.contains("notifications-svc"), "cmd_feature_add_dep output must mention dep name, got: {}", msg);
    assert_eq!(ps.deps("my-feature"), vec!["notifications-svc".to_string()], "cmd_feature_add_dep must store dep in envelope_deps");
}

#[test]
fn cmd_feature_remove_governs_removes_pr_from_envelope() {
    let mut ps = ProcessState::new();
    cmd_feature_new(&mut ps, "auth-refactor");
    ps.put_record(record(10, "feat/x", Some("auth-refactor"), &[]));
    ps.put_record(record(20, "feat/y", Some("auth-refactor"), &[]));
    let msg = cmd_feature_remove(&mut ps, "auth-refactor", 10).unwrap();
    assert!(msg.contains("Removed PR #10"), "must confirm removal: {}", msg);
    assert!(ps.record(10).is_none(), "PR #10 must be absent after remove");
    assert!(ps.record(20).is_some(), "PR #20 must remain");
    assert!(ps.contains_envelope("auth-refactor"), "envelope must remain with members");
}

#[test]
fn cmd_feature_remove_governs_deletes_empty_envelope() {
    let mut ps = ProcessState::new();
    cmd_feature_new(&mut ps, "solo");
    ps.put_record(record(10, "feat/x", Some("solo"), &[]));
    cmd_feature_remove(&mut ps, "solo", 10).unwrap();
    assert!(!ps.contains_envelope("solo"), "empty envelope must be deleted");
}

#[test]
fn resolve_worktree_governs_empty_branch_returns_repo_root() {
    let result = resolve_worktree("/some/repo", "");
    assert_eq!(result, "/some/repo", "resolve_worktree with empty branch must return repo_root, got: {:?}", result);
}

#[test]
fn resolve_worktree_governs_nonempty_branch_returns_worktree_path() {
    let result = resolve_worktree("/some/repo", "feat/x");
    let expected = worktree_path("/some/repo", "feat/x");
    assert_eq!(result, expected, "resolve_worktree with non-empty branch must return worktree_path, got: {:?}", result);
    assert_eq!(result, "/some/repo-worktrees/feat/x");
}

#[test]
fn worktrees_live_beside_the_repository() {
    assert_eq!(worktree_path("/tmp/repo/", "feat/x"), "/tmp/repo-worktrees/feat/x");
    assert_eq!(worktree_path("repo", "main"), "repo-worktrees/main");
}

#[test]
fn instance_names() {
    assert_eq!(member_instance(42), "fp---42");
    assert_eq!(dep_instance("My-Feat", "API/v2"), "fp-dep-my-feat-api-v2");
    assert_eq!(instance_from_lowered("a/b/c"), "a-b-c");
}

#[test]
fn down_stops_members_with_configs_and_skips_the_rest() {
    let mut configs = AppConfigStore::open("config.toml".into());
    configs.save_app_config(echo_config("svc"));
    let mut ps = ProcessState::new();
    feature_new(&mut ps, "f");
    let mut running = record(1, "feat/a", Some("f"), &["svc"]);
    running.pid = Some(11);
    ps.put_record(running);
    ps.put_record(record(2, "feat/b", Some("f"), &[]));
    let mut other = record(3, "feat/c", Some("g"), &["svc"]);
    other.pid = Some(33);
    ps.put_record(other);
    let (msgs, teardowns) = feature_down(&mut ps, &configs, "f");
    assert_eq!(msgs, vec!["PR #1: stopped (svc)".to_string(), "PR #2: no app config assigned — skipped".to_string()]);
    assert_eq!(teardowns.len(), 1);
    match &teardowns[0] {
        Teardown::Member { pr, instance, expected_branch, command } => {
            assert_eq!((*pr, instance.as_str(), expected_branch.as_str(), command.as_str()),
                (1, "fp---1", "feat/a", "echo teardown-ok"));
        }
        _ => panic!("expected a member teardown"),
    }
    assert_eq!(ps.record(1).unwrap().pid, None);
    assert_eq!(ps.record(3).unwrap().pid, Some(33));
}

#[test]
fn up_plan_lists_members_then_unprovided_deps() {
    let mut configs = AppConfigStore::open("config.toml".into());
    configs.save_app_config(echo_config("api"));
    configs.save_app_config(echo_config("db"));
    let mut ps = ProcessState::new();
    feature_new(&mut ps, "f");
    feature_add_dep(&mut ps, "f", "api");
    feature_add_dep(&mut ps, "f", "db");
    feature_add_dep(&mut ps, "f", "cache");
    ps.put_record(record(5, "feat/a", Some("f"), &["api", "web"]));
    ps.put_record(record(6, "feat/b", Some("f"), &[]));
    let plan = feature_up(&ps, &configs, "f");
    let described: Vec<String> = plan.iter().map(|s| match s {
        UpStep::Note { message } => message.clone(),
        UpStep::Member { pr, config, .. } => format!("member {} {}", pr, config.name),
        UpStep::Dep { key, instance, .. } => format!("dep {} {}", key, instance),
    }).collect();
    assert_eq!(described, vec![
        "member 5 api".to_string(),
        "PR #5: app config 'web' not found — skipped".to_string(),
        "PR #6: no app config assigned — skipped".to_string(),
        "dep f:db fp-dep-f-db".to_string(),
        "dep cache: app config not found — skipped".to_string(),
    ]);
}

#[test]
fn feature_test_needs_an_envelope_and_a_command() {
    let mut ps = ProcessState::new();
    assert_eq!(feature_test_command(&ps, "my-feat").err().unwrap(), "Feature envelope 'my-feat' not found");
    feature_new(&mut ps, "my-feat");
    assert_eq!(feature_test_command(&ps, "my-feat").err().unwrap(),
        "No test command set for feature 'my-feat' — use: fp feature set-test my-feat <command>");
    fp::commands::cmd_feature_set_test(&mut ps, "my-feat", "make e2e").unwrap();
    assert_eq!(feature_test_command(&ps, "my-feat").unwrap(), ("make e2e".to_string(), "fp-test-my-feat".to_string()));
    assert_eq!(feature_test_command(&ps, "my-feat").unwrap().0, "make e2e");
}

#[test]
fn feature_test_reports() {
    assert_eq!(cmd_feature_test("f", "make e2e", true, "ok\n", ""), Ok("Feature 'f' test passed (cmd: make e2e):\nok".to_string()));
    assert_eq!(cmd_feature_test("f", "make e2e", false, "", "boom\n"), Err("Feature 'f' test FAILED (cmd: make e2e):\nboom".to_string()));
}

#[test]
fn feature_logs_gather_dep_and_member_logs() {
    let mut ps = ProcessState::new();
    feature_new(&mut ps, "F");
    ps.put_record(record(7, "feat/a", Some("F"), &[]));
    ps.put_record(record(8, "feat/b", Some("G"), &[]));
    let _ = dep_started(&mut ps, "F", "F:Api", "Api", 5, "/repo");
    let files = vec!["fp---7.log".to_string(), "fp---8.log".to_string(), "x-17.log".to_string()];
    let logs = feature_log_files(&ps, "F", &files);
    assert_eq!(logs, vec![
        ("dep Api".to_string(), "fp-dep-f-api.log".to_string()),
        ("PR #7".to_string(), "fp---7.log".to_string()),
    ]);
    assert_eq!(cmd_feature_logs("F", "/logs", &[]), "No logs found for feature 'F'.\nLog directory: /logs");
    let entries = vec![
        ("dep Api".to_string(), "/logs/fp-dep-f-api.log".to_string(), None),
        ("PR #7".to_string(), "/logs/fp---7.log".to_string(), Some(String::new())),
        ("PR #7".to_string(), "/logs/x".to_string(), Some("line\n".to_string())),
    ];
    assert_eq!(cmd_feature_logs("F", "/logs", &entries),
        "=== dep Api (/logs/fp-dep-f-api.log) ===\n(log file not yet created)\n\n=== PR #7 (/logs/fp---7.log) ===\n(empty)\n\n=== PR #7 (/logs/x) ===\nline");
}

#[test]
fn stopped_members_show_as_stopped() {
    let mut configs = AppConfigStore::open("config.toml".into());
    configs.save_app_config(echo_config("svc"));
    let mut ps = ProcessState::new();
    feature_new(&mut ps, "f");
    let mut r = record(1, "feat/a", Some("f"), &["svc"]);
    r.pid = Some(11);
    ps.put_record(r);
    let before = fp::feature::feature_status(&ps, &configs, "f", &[11], &[], &[]);
    assert!(before[0].pid_alive);
    let _ = feature_down(&mut ps, &configs, "f");
    let after = fp::feature::feature_status(&ps, &configs, "f", &[11], &[], &[]);
    assert!(!after[0].pid_alive);
}

#[test]
fn running_with_config_counts_ephemeral_members_by_health() {
    let mut configs = AppConfigStore::open("config.toml".into());
    let mut eph = echo_config("ephem");
    eph.ephemeral = true;
    eph.health_check = Some("true".into());
    configs.save_app_config(eph);
    let mut ps = ProcessState::new();
    feature_new(&mut ps, "feat");
    feature_new(&mut ps, "other");
    ps.put_record(record(45, "feat/ephem", Some("feat"), &["ephem"]));
    let mut live = record(46, "feat/o", Some("other"), &[]);
    live.pid = Some(300);
    ps.put_record(live);
    let running = fp::feature::feature_list_running_with_config(&ps, &configs, &[300], &[45]);
    assert_eq!(running.iter().map(|f| f.name.as_str()).collect::<Vec<_>>(), vec!["feat", "other"]);
    let none_healthy = fp::feature::feature_list_running_with_config(&ps, &configs, &[], &[]);
    assert!(none_healthy.is_empty());
}

#[test]
fn feature_governs_add_dep_stores_config_in_envelope_deps() {
    let mut ps = ProcessState::new();
    feature_new(&mut ps, "my-feature");
    feature_add_dep(&mut ps, "my-feature", "notifications-svc");
    let deps = ps.deps("my-feature");
    assert!(deps.contains(&"notifications-svc".to_string()),
        "envelope_deps must contain 'notifications-svc', got: {:?}", deps);
}

#[test]
fn feature_governs_list_running_includes_ephemeral_when_health_check_passes() {
    let mut configs = AppConfigStore::open("config.toml".into());
    let mut cfg = echo_config("my-ext");
    cfg.ephemeral = true;
    cfg.health_check = Some("true".into());
    configs.save_app_config(cfg);
    let mut ps = ProcessState::new();
    feature_new(&mut ps, "ext-feature");
    ps.put_record(record(789, "feat/ext", Some("ext-feature"), &["my-ext"]));
    let running = fp::feature::feature_list_running_with_config(&ps, &configs, &[], &[789]);
    assert!(running.iter().any(|f| f.name == "ext-feature"),
        "feature_list_running must include ephemeral envelope with passing health_check, got: {:?}",
        running.iter().map(|f| &f.name).collect::<Vec<_>>());
}

#[test]
fn feature_governs_list_running_includes_ephemeral_without_health_check() {
    let mut configs = AppConfigStore::open("config.toml".into());
    let mut cfg = echo_config("my-ext");
    cfg.bootstrap = "echo install".into();
    cfg.teardown = "echo uninstall".into();
    cfg.ephemeral = true;
    cfg.health_check = None;
    configs.save_app_config(cfg);
    let mut ps = ProcessState::new();
    feature_new(&mut ps, "ext-feature");
    ps.put_record(record(789, "feat/ext", Some("ext-feature"), &["my-ext"]));
    let running = fp::feature::feature_list_running_with_config(&ps, &configs, &[], &[]);
    assert!(running.iter().any(|f| f.name == "ext-feature"),
        "feature_list_running must include ephemeral envelope even without health_check, got: {:?}",
        running.iter().map(|f| &f.name).collect::<Vec<_>>());
}
