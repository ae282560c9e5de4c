use fp::app_config::AppConfigStore;
use fp::commands::{
    unlock_message, agent_context_text, cmd_checks, cmd_reply, reply_confirmation, cmd_ready, cmd_comment, cmd_track,
    cmd_edit, cmd_context, ContextReply, normalize_base_of, update_children_base, cmd_untrack, cmd_feature_new,
    cmd_feature_list, cmd_feature_list_running, cmd_feature_remove, cmd_feature_remove_dep, cmd_feature_set_test,
    cmd_feature_add_dep, cmd_feature_add, cmd_feature_up, cmd_feature_down, cmd_feature_rebuild,
    cmd_feature_up_checked, UpPlan, torn_down_message, cmd_switch_feature_summary, cmd_pr_up, cmd_pr_up_with_configs,
    cmd_pr_up_force, pr_started_message, cmd_app_list, cmd_app_set_config, cmd_app_define_config,
    cmd_feature_status_with_client, cmd_profile, ProfileAction, profile_saved_message, profile_load_text, cmd_create,
    restacked_line, inserted_line, nothing_to_restack_line, cmd_merge, downstream_bases, has_downstream, untracked_line,
    envelope_leave_message, leave_envelope, rebase_report, locked_skip_lines,
};
use fp::feature::PrHealthStatus;
use fp::github::ReplyRoute;
use fp::model::{Check, CheckStatus, PrCache, PrState, Thread, ThreadState};
use fp::process::{ProcessRecord, ProcessState};
use fp::tracking::TrackedPrs;

fn make_pr(number: u64) -> PrState {
    PrState {
        number,
        title: "test".into(),
        branch: "feat/test".into(),
        base: "main".into(),
        head_sha: "abc123".into(),
        draft: false,
        approved: false,
        checks: vec![Check {
            name: "ci/test".into(),
            status: CheckStatus::Pass,
            required: true,
            details_url: Some("https://ci.example.com/1".into()),
            log_snippet: None,
        }],
        threads: vec![Thread {
            id: 42,
            body: "fix this".into(),
            state: ThreadState::Open,
            file: None,
            line: None,
            author: "maintainer".into(),
            replies: vec![],
        }],
        has_merge_conflict: false,
    }
}

fn record(pr: u64, envelope: Option<&str>, pid: Option<u32>, configs: &[&str]) -> ProcessRecord {
    ProcessRecord {
        pr,
        expected_branch: format!("feat/{}", pr),
        pid,
        feature_envelope: envelope.map(|e| e.to_string()),
        worktree: format!("/wt/{}", pr),
        app_config_names: configs.iter().map(|c| c.to_string()).collect(),
    }
}

#[test]
fn commands_governs_unlock_formats_success_message() {
    let result = unlock_message("feat-branch");
    assert!(result.contains("feat-branch"), "commands::unlock_message must include branch name: {}", result);
    assert!(result.contains("Unlocked"), "commands::unlock_message must say 'Unlocked': {}", result);
    assert_eq!(result, "Unlocked branch 'feat-branch'");
}

#[test]
fn commands_governs_agent_context_text_output() {
    let result = agent_context_text(3);
    assert!(result.contains("3"), "commands::agent_context_text must include PR count: {}", result);
    assert!(result.contains("tracked"), "commands::agent_context_text must say 'tracked': {}", result);
    assert!(result.ends_with("tracked PRs: 3"));
}

#[test]
fn commands_governs_cmd_checks_formats_check_results() {
    let checks = vec![Check {
        name: "ci/test".into(),
        status: CheckStatus::Pass,
        required: true,
        details_url: Some("https://ci.example.com/1".into()),
        log_snippet: None,
    }];
    let out = cmd_checks(&checks, "abc123");
    assert!(out.contains("ci/test"), "must contain check name, got: {}", out);
    assert!(out.contains("✓"), "must contain pass symbol, got: {}", out);
    assert!(out.contains("https://ci.example.com/1"), "must contain url, got: {}", out);
}

#[test]
fn commands_governs_cmd_checks_empty_says_no_checks() {
    let out = cmd_checks(&[], "deadbeef");
    assert!(out.contains("No check runs"), "must say 'No check runs', got: {}", out);
}

#[test]
fn cmd_checks_exact_lines() {
    let checks = vec![
        Check { name: "a".into(), status: CheckStatus::Fail, required: true, details_url: None, log_snippet: None },
        Check { name: "b".into(), status: CheckStatus::Pending, required: false, details_url: Some("u".into()), log_snippet: None },
    ];
    assert_eq!(cmd_checks(&checks, "x"), "✗ a — (no url)\n⏳ b — u\n");
}

#[test]
fn commands_governs_cmd_reply_returns_confirmation() {
    let pr = make_pr(7);
    let route = cmd_reply(&pr, 7, 42, "looks good").unwrap();
    let posted = match route {
        ReplyRoute::PrComment { body } => {
            assert_eq!(body, "@maintainer looks good");
            "https://github.com/owner/repo/pull/7#issuecomment-1".to_string()
        }
        ReplyRoute::CommentReply { .. } => panic!("a thread without a file is answered in the conversation"),
    };
    let out = reply_confirmation(42, &posted);
    assert!(out.contains("Replied"), "must confirm reply, got: {}", out);
    assert!(out.contains("42"), "must mention thread id, got: {}", out);
}

#[test]
fn commands_governs_cmd_reply_errors_on_missing_thread() {
    let pr = make_pr(7);
    let result = cmd_reply(&pr, 7, 99, "msg");
    assert!(result.is_err(), "must error when thread not found");
    let e = result.err().unwrap();
    assert!(e.contains("not found"), "error must say 'not found'");
    assert_eq!(e, "thread #99 not found on PR #7");
}

#[test]
fn commands_governs_cmd_ready_returns_confirmation() {
    let out = cmd_ready(3);
    assert!(out.contains("ready"), "must confirm ready, got: {}", out);
    assert!(out.contains("3"), "must mention PR number, got: {}", out);
}

#[test]
fn commands_governs_cmd_comment_posts_and_returns_url() {
    let out = cmd_comment("https://github.com/owner/repo/pull/7#issuecomment-1");
    assert!(out.contains("Comment posted"), "must say 'Comment posted', got: {}", out);
    assert!(out.contains("http"), "must contain a URL, got: {}", out);
}

#[test]
fn cmd_track_returns_metadata_from_client() {
    let result = cmd_track(Some(false), Some(("My Feature PR".into(), "feat/my-feature".into())), Some("main".into()), 42, None);
    let (title, branch, base) = result.unwrap();
    assert_eq!(title, "My Feature PR", "cmd_track must return title from client");
    assert_eq!(branch, "feat/my-feature", "cmd_track must return branch from client");
    assert_eq!(base, "main", "cmd_track must return base from client");
}

#[test]
fn cmd_track_uses_provided_title_over_fetched() {
    let result = cmd_track(Some(false), Some(("Fetched Title".into(), "feat/my-feature".into())), Some("main".into()), 42,
        Some("Override Title".to_string()));
    let (title, _branch, _base) = result.unwrap();
    assert_eq!(title, "Override Title", "cmd_track must prefer provided title over fetched");
}

#[test]
fn track_merged_pr_returns_error() {
    let result = cmd_track(Some(true), Some(("Done PR".into(), "feat/done".into())), Some("main".into()), 42, None);
    assert!(result.is_err(), "cmd_track must error for merged PR");
    let msg = result.err().unwrap();
    assert!(msg.contains("42") && msg.contains("merged"), "error must mention PR number and 'merged', got: {}", msg);
}

#[test]
fn cmd_track_without_answers_defaults() {
    let (title, branch, base) = cmd_track(None, None, None, 5, None).unwrap();
    assert_eq!((title.as_str(), branch.as_str(), base.as_str()), ("PR #5", "", ""));
}

#[test]
fn cmd_edit_returns_success_message() {
    let msg = cmd_edit(7);
    assert!(msg.contains("7"), "cmd_edit must mention PR number: {}", msg);
}

#[test]
fn cmd_edit_with_demo_injects_section_into_body() {
    let msg = cmd_edit(7);
    assert_eq!(msg, "✓ PR #7 updated");
}

#[test]
fn cmd_context_missing_thread_returns_not_found() {
    let mut pr = make_pr(5);
    pr.threads = vec![];
    let result = cmd_context(&pr, 5, "thread:99");
    assert!(result.is_ok(), "cmd_context must not error for missing thread");
    match result.ok().unwrap() {
        ContextReply::Text(out) => assert!(out.contains("not found"), "must say not found: {}", out),
        ContextReply::Check(_) => panic!("a thread hint names no check"),
    }
}

#[test]
fn cmd_context_thread_returns_thread_details() {
    let mut pr = make_pr(5);
    pr.threads = vec![Thread {
        id: 42,
        state: ThreadState::Open,
        author: "alice".into(),
        body: "please fix this".into(),
        file: Some("src/foo.rs".into()),
        line: Some(10),
        replies: vec![("bob".into(), "on it".into())],
    }];
    match cmd_context(&pr, 5, "thread:42").ok().unwrap() {
        ContextReply::Text(out) => assert_eq!(out,
            "Thread #42 (Open)\n  src/foo.rs:10\n  @alice: please fix this\n  > @bob: on it\n"),
        ContextReply::Check(_) => panic!("expected text"),
    }
}

#[test]
fn cmd_context_check_returns_check_details() {
    let pr = make_pr(5);
    match cmd_context(&pr, 5, "ci/test").ok().unwrap() {
        ContextReply::Check(i) => assert_eq!(pr.checks[i].name, "ci/test"),
        ContextReply::Text(t) => panic!("expected the check, got {}", t),
    }
    match cmd_context(&pr, 5, "ci/none").ok().unwrap() {
        ContextReply::Text(t) => assert_eq!(t, "Check 'ci/none' not found in PR #5\n"),
        ContextReply::Check(_) => panic!("no such check"),
    }
    assert!(cmd_context(&pr, 5, "thread:x").is_err());
}

#[test]
fn commands_governs_normalize_base_of_replaces_untracked_base_with_main() {
    let known = vec!["feat/child".to_string()];
    let base_of = vec![("feat/child".to_string(), "feat/old-parent".to_string())];
    let result = normalize_base_of(base_of, &known);
    assert_eq!(result, vec![("feat/child".to_string(), "main".to_string())],
        "base must be replaced with main when declared parent is not tracked, got: {:?}", result);
}

#[test]
fn commands_governs_normalize_base_of_keeps_tracked_base_unchanged() {
    let known = vec!["feat/child".to_string(), "feat/parent".to_string()];
    let base_of = vec![("feat/child".to_string(), "feat/parent".to_string())];
    let result = normalize_base_of(base_of, &known);
    assert_eq!(result, vec![("feat/child".to_string(), "feat/parent".to_string())],
        "base must be kept when declared parent IS tracked, got: {:?}", result);
}

#[test]
fn update_children_base_moves_only_children() {
    let mut caches = vec![
        PrCache { number: 2, title: "child".into(), branch: "feat/child".into(), base: "feat/parent".into() },
        PrCache { number: 3, title: "other".into(), branch: "feat/other".into(), base: "main".into() },
    ];
    update_children_base(&mut caches, "feat/parent", "main");
    assert_eq!(caches[0].base, "main");
    assert_eq!(caches[1].base, "main");
    assert_eq!(caches[0].branch, "feat/child");
    update_children_base(&mut caches, "feat/other", "develop");
    assert_eq!(caches[0].base, "main");
}

#[test]
fn untrack_message() {
    let mut store = TrackedPrs::new();
    assert_eq!(cmd_untrack(&mut store, 12), "Untracked PR #12");
}

#[test]
fn cmd_feature_new_governs_creates_envelope() {
    let mut ps = ProcessState::new();
    let out = cmd_feature_new(&mut ps, "auth-refactor");
    assert_eq!(out, "Created feature envelope 'auth-refactor'");
    assert!(ps.contains_envelope("auth-refactor"), "cmd_feature_new must create envelope");
}

#[test]
fn cmd_feature_list_governs_returns_output() {
    let mut ps = ProcessState::new();
    fp::feature::feature_new(&mut ps, "my-feature");
    let out = cmd_feature_list(&ps);
    assert!(out.contains("my-feature"), "cmd_feature_list output must contain 'my-feature'");
}

#[test]
fn cmd_feature_list_shows_members_and_empty_state() {
    let mut ps = ProcessState::new();
    assert_eq!(cmd_feature_list(&ps), "No feature envelopes.");
    fp::feature::feature_new(&mut ps, "b-feat");
    fp::feature::feature_new(&mut ps, "a-feat");
    ps.put_record(record(10, Some("a-feat"), None, &[]));
    ps.put_record(record(11, Some("a-feat"), None, &[]));
    assert_eq!(cmd_feature_list(&ps), "  a-feat (2 PR(s)): #10, #11\n  b-feat (0 PR(s)):");
}

#[test]
fn cmd_feature_list_running_governs_returns_only_live_envelopes() {
    let mut ps = ProcessState::new();
    fp::feature::feature_new(&mut ps, "dead-feature");
    let output = cmd_feature_list_running(&ps, &[]);
    assert!(!output.contains("dead-feature"),
        "cmd_feature_list_running must not include envelope with no live PIDs, got: {}", output);
    assert_eq!(output, "No running feature envelopes.");
}

#[test]
fn cmd_feature_list_running_lists_live_envelopes() {
    let mut ps = ProcessState::new();
    fp::feature::feature_new(&mut ps, "live");
    fp::feature::feature_new(&mut ps, "dead");
    ps.put_record(record(1, Some("live"), Some(100), &[]));
    ps.put_record(record(2, Some("dead"), Some(200), &[]));
    assert_eq!(cmd_feature_list_running(&ps, &[100]), "  live (1 PR(s)): #1");
}

#[test]
fn cmd_feature_remove_deletes_envelope_with_last_member() {
    let mut ps = ProcessState::new();
    assert_eq!(cmd_feature_remove(&mut ps, "f", 1).err().unwrap(), "Feature envelope 'f' not found");
    fp::feature::feature_new(&mut ps, "f");
    ps.put_record(record(1, Some("f"), None, &[]));
    ps.put_record(record(2, Some("f"), None, &[]));
    ps.put_record(record(3, None, None, &[]));
    assert_eq!(cmd_feature_remove(&mut ps, "f", 3).err().unwrap(), "PR #3 is not a member of feature envelope 'f'");
    assert_eq!(cmd_feature_remove(&mut ps, "f", 1).unwrap(),
        "Removed PR #1 from feature envelope 'f' (1 members remaining)\n");
    assert!(ps.contains_envelope("f"));
    assert_eq!(cmd_feature_remove(&mut ps, "f", 2).unwrap(),
        "Removed PR #2 from feature envelope 'f' (envelope deleted)\n");
    assert!(!ps.contains_envelope("f"));
    assert!(ps.record(3).is_some());
}

#[test]
fn leave_envelope_reports_merged_member() {
    let mut ps = ProcessState::new();
    fp::feature::feature_new(&mut ps, "f");
    ps.put_record(record(1, Some("f"), None, &[]));
    let (e, remaining) = leave_envelope(&mut ps, 1).unwrap();
    assert_eq!(envelope_leave_message(1, &e, remaining), "Removed PR #1 from feature envelope 'f' (envelope deleted)\n");
    assert!(leave_envelope(&mut ps, 1).is_none());
}

#[test]
fn cmd_feature_deps_and_tests() {
    let mut ps = ProcessState::new();
    assert_eq!(cmd_feature_add_dep(&mut ps, "f", "db"), "Added dep 'db' to feature 'f'");
    cmd_feature_add_dep(&mut ps, "f", "cache");
    assert!(ps.contains_envelope("f"));
    let deps: Vec<&String> = ps.envelope_deps().iter().filter(|e| e.0 == "f").flat_map(|e| e.1.iter()).collect();
    assert_eq!(deps, vec!["db", "cache"]);
    assert_eq!(cmd_feature_remove_dep(&mut ps, "f", "db").unwrap(), "Removed dep 'db' from feature 'f'.\n");
    let deps: Vec<&String> = ps.envelope_deps().iter().filter(|e| e.0 == "f").flat_map(|e| e.1.iter()).collect();
    assert_eq!(deps, vec!["cache"]);
    assert!(cmd_feature_remove_dep(&mut ps, "g", "db").is_err());
    assert_eq!(cmd_feature_set_test(&mut ps, "f", "make test").unwrap(), "Set test command for feature 'f'.\n");
    assert_eq!(ps.feature_configs()[0].1.as_deref(), Some("make test"));
    assert_eq!(cmd_feature_set_test(&mut ps, "g", "x").err().unwrap(), "Feature envelope 'g' not found");
}

#[test]
fn cmd_feature_add_joins_and_keeps_configs_once() {
    let mut ps = ProcessState::new();
    let out = cmd_feature_add(&mut ps, "f", 7, &["api".to_string(), "worker".to_string()], "feat/x", "/wt/x");
    assert_eq!(out, "Added PR #7 to feature 'f'");
    cmd_feature_add(&mut ps, "f", 7, &["api".to_string(), "db".to_string()], "ignored", "ignored");
    let r = ps.record(7).unwrap();
    assert_eq!(r.app_config_names, vec!["api", "worker", "db"]);
    assert_eq!(r.expected_branch, "feat/x");
    assert_eq!(r.feature_envelope.as_deref(), Some("f"));
}

#[test]
fn feature_reports() {
    assert_eq!(cmd_feature_up("f", &[]), "Feature 'f' has no member PRs with app configs.");
    assert_eq!(cmd_feature_up("f", &["a".into(), "b".into()]),
        "a\nb\nNote: fp tracks processes by PID — your bootstrap script must stay in the foreground (do not daemonize).");
    assert_eq!(cmd_feature_down("f", &["a".into(), "b".into()]), "a\nb");
    assert_eq!(cmd_feature_rebuild("f", &[]), "Feature 'f' has no matching ephemeral members.");
    assert_eq!(torn_down_message("g", &["x".into(), "y".into()]), "torn down feature 'g': x, y\n");
}

#[test]
fn feature_up_checked_decides() {
    let mut ps = ProcessState::new();
    fp::feature::feature_new(&mut ps, "mine");
    fp::feature::feature_new(&mut ps, "other");
    ps.put_record(record(1, Some("other"), Some(50), &[]));
    assert!(matches!(cmd_feature_up_checked(&ps, "mine", false, false, &[]), Ok(UpPlan::Start)));
    match cmd_feature_up_checked(&ps, "mine", false, true, &[50]) {
        Ok(UpPlan::Aborted(m)) => assert_eq!(m, "aborted: conflicting running feature(s): other"),
        _ => panic!("expected abort"),
    }
    match cmd_feature_up_checked(&ps, "mine", true, false, &[50]) {
        Ok(UpPlan::TearDownFirst(v)) => assert_eq!(v, vec!["other".to_string()]),
        _ => panic!("expected tear down"),
    }
    assert_eq!(cmd_feature_up_checked(&ps, "mine", false, false, &[50]).err().unwrap(),
        "conflicting running feature(s): other — use --yes to tear down or --no to abort");
}

#[test]
fn commands_governs_cmd_switch_feature_summary_empty_when_no_feature() {
    let ps = ProcessState::new();
    let summary = cmd_switch_feature_summary(&ps, 99, &[]);
    assert!(summary.is_empty(), "summary must be empty when PR has no feature, got: {}", summary);
}

#[test]
fn switch_summary_lists_member_health() {
    let mut ps = ProcessState::new();
    ps.put_record(record(42, Some("my-feature"), None, &[]));
    let statuses = vec![
        PrHealthStatus { pr: 42, pid_alive: true, service_healthy: None, branch_ok: None },
        PrHealthStatus { pr: 43, pid_alive: false, service_healthy: Some(false), branch_ok: None },
    ];
    assert_eq!(cmd_switch_feature_summary(&ps, 42, &statuses),
        "Feature: my-feature\n  PR #42: up\n  PR #43: down (not installed — run: fp feature rebuild <name> --pr 43)\n");
}

#[test]
fn cmd_pr_up_governs_reads_config_from_process_record() {
    let mut ps = ProcessState::new();
    ps.put_record(record(42, None, None, &["svc"]));
    let result = cmd_pr_up(&ps, 42);
    assert!(result.is_ok(), "cmd_pr_up must succeed reading config from ProcessRecord: {:?}", result);
    let (wt, names) = result.unwrap();
    assert_eq!(wt, "/wt/42");
    assert_eq!(names, vec!["svc".to_string()]);
    assert_eq!(pr_started_message(42, "svc"), "PR #42: started (svc)");
}

#[test]
fn cmd_pr_up_errors() {
    let mut ps = ProcessState::new();
    assert_eq!(cmd_pr_up(&ps, 1).err().unwrap(), "PR #1 not found in process state — run `fp feature add` first");
    ps.put_record(record(1, None, None, &[]));
    assert_eq!(cmd_pr_up(&ps, 1).err().unwrap(), "no app config assigned to PR #1 — use `fp feature add --config`");
    assert_eq!(cmd_pr_up_with_configs(&ps, 1).unwrap(), "/wt/1");
    assert!(cmd_pr_up_force(&ps, 2).is_err());
}

#[test]
fn cmd_app_set_config_governs_saves_repo_assignment() {
    let mut store = AppConfigStore::open("config.toml".into());
    let out = cmd_app_set_config(&mut store, "acme/payments-api", "payments-api");
    assert_eq!(out, "Assigned config 'payments-api' to repo 'acme/payments-api'");
    assert_eq!(store.get_repo_config("acme/payments-api"), Some("payments-api".to_string()),
        "cmd_app_set_config must persist repo assignment");
}

#[test]
fn cmd_app_define_config_governs_stores_all_fields() {
    let mut store = AppConfigStore::open("config.toml".into());
    let out = cmd_app_define_config(&mut store, "payments-api", "docker-compose up -d", "docker-compose down", "60s",
        None, false, None, None, None);
    assert!(out.starts_with("Defined app config 'payments-api'"), "cmd_app_define_config must succeed: {:?}", out);
    let cfg = store.load_app_config("payments-api").unwrap();
    assert_eq!(cfg.bootstrap, "docker-compose up -d", "cmd_app_define_config must store bootstrap, got: {:?}", cfg.bootstrap);
    assert_eq!(cfg.teardown, "docker-compose down", "cmd_app_define_config must store teardown, got: {:?}", cfg.teardown);
    assert_eq!(cfg.startup_timeout, "60s", "cmd_app_define_config must store startup_timeout, got: {:?}", cfg.startup_timeout);
    assert_eq!(cfg.health_check, None, "cmd_app_define_config must store None health_check, got: {:?}", cfg.health_check);
}

#[test]
fn cmd_app_define_config_governs_stores_main_worktree() {
    let mut store = AppConfigStore::open("config.toml".into());
    cmd_app_define_config(&mut store, "payments-api", "docker-compose up -d", "docker-compose down", "60s",
        None, false, Some("/path/to/main"), None, None);
    let cfg = store.load_app_config("payments-api").unwrap();
    assert_eq!(cfg.main_worktree, Some("/path/to/main".to_string()),
        "cmd_app_define_config must store main_worktree, got: {:?}", cfg.main_worktree);
}

#[test]
fn cmd_app_define_config_governs_stores_health_check() {
    let mut store = AppConfigStore::open("config.toml".into());
    cmd_app_define_config(&mut store, "svc", "npm start", "pkill node", "30s",
        Some("curl -f http://localhost:3000/health"), false, None, None, None);
    let cfg = store.load_app_config("svc").unwrap();
    assert_eq!(cfg.health_check, Some("curl -f http://localhost:3000/health".into()),
        "cmd_app_define_config must store health_check, got: {:?}", cfg.health_check);
}

#[test]
fn app_list_output() {
    let mut store = AppConfigStore::open("config.toml".into());
    assert_eq!(cmd_app_list(&store), "No app configs defined.");
    cmd_app_define_config(&mut store, "web", "b", "t", "1s", Some("curl"), true, None, None, None);
    cmd_app_define_config(&mut store, "api", "b", "t", "1s", None, false, None, None, None);
    assert_eq!(cmd_app_list(&store), "  api\n  web (health-check) [ephemeral]");
}

#[test]
fn feature_status_notes_merged_members() {
    let mut ps = ProcessState::new();
    ps.put_record(record(5, Some("f"), None, &[]));
    ps.put_record(record(6, Some("f"), None, &[]));
    let store = AppConfigStore::open("config.toml".into());
    assert_eq!(cmd_feature_status_with_client(&ps, &store, "f", &[], &[], &[], &vec![], &[6]),
        "  PR #5  ✗ stopped\n    (if your app daemonizes, fp cannot track it — keep the process in the foreground)\n  PR #6  ✗ stopped\n    (if your app daemonizes, fp cannot track it — keep the process in the foreground)  PR #6 (merged — remove with: fp feature remove f 6)\n");
}

#[test]
fn profile_actions() {
    match cmd_profile("save", "work", Some("tok".into()), Some("o/r".into())) {
        Ok(ProfileAction::Save { name, token, repo }) =>
            assert_eq!((name.as_str(), token.as_str(), repo.as_str()), ("work", "tok", "o/r")),
        _ => panic!("expected save"),
    }
    assert_eq!(cmd_profile("save", "work", None, Some("o/r".into())).err().unwrap(), "--token required for profile save");
    assert!(matches!(cmd_profile("load", "work", None, None), Ok(ProfileAction::Load { name }) if name == "work"));
    let err = cmd_profile("delete", "work", None, None).err().unwrap();
    assert!(err.contains("unknown profile action"), "got: {}", err);
    assert_eq!(profile_saved_message("work"), "Profile 'work' saved.");
    assert_eq!(profile_load_text("tok", "o/r"), "export GITHUB_TOKEN=tok\n# repo: o/r");
}

#[test]
fn create_and_merge_lines() {
    let pr = make_pr(9);
    let mut store = TrackedPrs::new();
    assert_eq!(cmd_create(&mut store, &pr), "Created PR #9: test (feat/test)");
    assert_eq!(restacked_line(4, "feat/new", "feat/old"), "\nRestacked PR #4 onto feat/new (rebased feat/old --onto feat/new)");
    assert_eq!(inserted_line("feat/new", 3, 4), "\nInserted feat/new between PR #3 and PR #4");
    assert_eq!(nothing_to_restack_line("feat/a"), "\nNo tracked PR found with base feat/a; nothing to restack");
    let mut store = TrackedPrs::new();
    let mut ps = ProcessState::new();
    assert_eq!(cmd_merge(&mut store, &mut ps, 10, "abc", ""), "✓ merged PR #10 (abc)\n✓ untracked PR #10\n");
    assert_eq!(untracked_line(10), "✓ untracked PR #10\n");
    let caches = vec![
        PrCache { number: 10, title: "t".into(), branch: "feat/x".into(), base: "main".into() },
        PrCache { number: 11, title: "u".into(), branch: "feat/y".into(), base: "feat/x".into() },
    ];
    let bases = downstream_bases(&caches, 10);
    assert_eq!(bases, vec![("feat/y".to_string(), "feat/x".to_string())]);
    assert!(has_downstream(&bases, "feat/x"));
    assert!(!has_downstream(&bases, "feat/y"));
}

#[test]
fn normalizing_bases_twice_changes_nothing() {
    let known = vec!["feat/a".to_string(), "feat/b".to_string()];
    let base_of = vec![
        ("feat/b".to_string(), "feat/a".to_string()),
        ("feat/c".to_string(), "feat/gone".to_string()),
    ];
    let once = normalize_base_of(base_of, &known);
    let twice = normalize_base_of(once.clone(), &known);
    assert_eq!(once, twice);
    assert_eq!(once[1], ("feat/c".to_string(), "main".to_string()));
}

#[test]
fn rebase_reports() {
    let caches = vec![PrCache { number: 4, title: "t".into(), branch: "feat/b".into(), base: "main".into() }];
    assert_eq!(rebase_report(&[], &[], &caches, None, &[]), "Stack is already up to date.\n");
    let out = rebase_report(&["feat/a".to_string()], &["feat/b".to_string(), "feat/c".to_string()], &caches,
        Some("both modified: x"), &["feat/d has diverged".to_string()]);
    assert_eq!(out, "✓ rebased feat/a\n✗ conflict on feat/b — resolve manually\n  Tip: fps 4 to switch to its worktree\n\
✗ conflict on feat/c — resolve manually\n\ngit status:\nboth modified: x\n⚠ feat/d has diverged\n");
    assert_eq!(locked_skip_lines(&["feat/e".to_string()]), "⚠ skipping feat/e — parent branch is locked\n");
}

#[test]
fn cmd_app_list_governs_returns_defined_config_names() {
    let mut store = AppConfigStore::open("config.toml".into());
    cmd_app_define_config(&mut store, "backend", "echo up", "echo down", "5s", None, false, None, None, None);
    cmd_app_define_config(&mut store, "frontend", "echo up", "echo down", "5s", None, false, None, None, None);
    let out = cmd_app_list(&store);
    assert!(out.contains("backend"), "cmd_app_list must list 'backend', got: {}", out);
    assert!(out.contains("frontend"), "cmd_app_list must list 'frontend', got: {}", out);
}

#[test]
fn commands_governs_cmd_profile_unknown_action_errors() {
    let result = cmd_profile("delete", "work", None, None);
    assert!(result.is_err(), "unknown action must return error");
    assert!(result.err().unwrap().contains("unknown profile action"), "error must say 'unknown profile action'");
}

#[test]
fn cmd_app_define_config_governs_setup_flag_persists() {
    let mut store = AppConfigStore::open("config.toml".into());
    cmd_app_define_config(&mut store, "payments-api", "docker-compose up -d", "docker-compose down", "60s",
        None, false, None, Some("npm install"), None);
    let cfg = store.load_app_config("payments-api").unwrap();
    assert_eq!(cfg.setup, Some("npm install".into()),
        "cmd_app_define_config must store setup command, got: {:?}", cfg.setup);
}

#[test]
fn cmd_app_define_config_governs_volume_check_field_persists() {
    let mut store = AppConfigStore::open("config.toml".into());
    cmd_app_define_config(&mut store, "svc", "cd $FP_WORKTREE && docker-compose up -d", "docker-compose down", "60s",
        None, false, None, None,
        Some("docker inspect $(docker compose ps -q svc) --format '{{range .Mounts}}{{.Source}} {{end}}' | grep -qF \"$FP_WORKTREE\""));
    let cfg = store.load_app_config("svc").unwrap();
    assert!(cfg.volume_check.is_some(),
        "governs_volume_check_field_persists: volume_check must be stored, got: {:?}", cfg.volume_check);
}

#[test]
fn cmd_app_define_config_governs_define_warns_missing_fp_worktree() {
    let mut store = AppConfigStore::open("config.toml".into());
    let output = cmd_app_define_config(&mut store, "svc", "docker-compose up -d", "docker-compose down", "60s",
        None, false, None, None, None);
    assert!(output.contains("FP_WORKTREE"),
        "cmd_app_define_config must warn about missing FP_WORKTREE, got: {}", output);
    assert_eq!(output, "Defined app config 'svc'\nWarning: neither bootstrap nor teardown mentions $FP_WORKTREE; the service will not know which worktree it serves");
}

#[test]
fn cmd_app_define_config_governs_no_warn_when_fp_worktree_present() {
    let mut store = AppConfigStore::open("config.toml".into());
    let output = cmd_app_define_config(&mut store, "svc", "cd $FP_WORKTREE && docker-compose up -d", "docker-compose down", "60s",
        None, false, None, None, None);
    assert!(!output.contains("Warning"),
        "cmd_app_define_config must not warn when FP_WORKTREE present, got: {}", output);
    assert_eq!(output, "Defined app config 'svc'");
}

#[test]
fn commands_governs_cmd_untrack_removes_pr_and_returns_message() {
    let mut store = TrackedPrs::new();
    store.track(5);
    store.update_cache(PrCache { number: 5, title: "test".into(), branch: "feat/test".into(), base: "main".into() });
    let msg = cmd_untrack(&mut store, 5);
    assert!(msg.contains("Untracked PR #5"), "must confirm untrack, got: {}", msg);
    assert!(!store.numbers().contains(&5), "PR must be removed from store");
    assert!(store.cache().is_empty());
}

#[test]
fn cmd_create_tracks_pr_in_store() {
    let mut store = TrackedPrs::new();
    let mut pr = make_pr(9);
    pr.title = "My PR Title".into();
    pr.branch = "feat/my-branch".into();
    let msg = cmd_create(&mut store, &pr);
    assert!(msg.contains("Created PR"), "must confirm PR creation: {}", msg);
    assert_eq!(store.numbers(), &vec![9u64], "cmd_create must track the created PR in store");
    assert_eq!(store.cache()[0].title, "My PR Title");
    assert_eq!(store.cache()[0].branch, "feat/my-branch");
    assert_eq!(store.cache()[0].base, "main");
}

#[test]
fn cmd_merge_untracks_pr_from_store() {
    let mut store = TrackedPrs::new();
    store.track(10);
    store.update_cache(PrCache { number: 10, title: "T".into(), branch: "feat/x".into(), base: "main".into() });
    let mut ps = ProcessState::new();
    let out = cmd_merge(&mut store, &mut ps, 10, "abc123", "");
    assert_eq!(out, "✓ merged PR #10 (abc123)\n✓ untracked PR #10\n");
    assert!(!store.numbers().contains(&10), "cmd_merge must untrack the PR");
    assert!(store.cache().is_empty());
}

#[test]
fn cmd_merge_governs_removes_pr_from_feature_envelope() {
    let mut store = TrackedPrs::new();
    store.track(10);
    let mut ps = ProcessState::new();
    cmd_feature_new(&mut ps, "auth-refactor");
    ps.put_record(record(10, Some("auth-refactor"), None, &[]));
    ps.put_record(record(20, Some("auth-refactor"), None, &[]));
    let out = cmd_merge(&mut store, &mut ps, 10, "abc123", "");
    assert!(out.contains("merged PR #10"), "got: {}", out);
    assert!(out.contains("auth-refactor"), "got: {}", out);
    assert_eq!(out, "✓ merged PR #10 (abc123)\n✓ untracked PR #10\nRemoved PR #10 from feature envelope 'auth-refactor' (1 members remaining)\n");
    assert!(ps.record(10).is_none());
    assert!(ps.record(20).is_some());
}

#[test]
fn cmd_merge_governs_deletes_envelope_when_empty() {
    let mut store = TrackedPrs::new();
    store.track(10);
    let mut ps = ProcessState::new();
    cmd_feature_new(&mut ps, "solo-feature");
    ps.put_record(record(10, Some("solo-feature"), None, &[]));
    let out = cmd_merge(&mut store, &mut ps, 10, "abc123", "");
    assert!(out.contains("solo-feature"), "got: {}", out);
    assert!(out.contains("envelope deleted"), "got: {}", out);
    let names: Vec<String> = fp::feature::feature_list(&ps).into_iter().map(|f| f.name).collect();
    assert!(!names.contains(&"solo-feature".to_string()), "empty envelope must be deleted");
}

#[test]
fn cmd_rebase_stack_returns_up_to_date_when_no_tracked_prs() {
    let mut store = TrackedPrs::new();
    let msg = fp::commands::rebase_stack_nothing_tracked(&store).unwrap();
    assert!(msg.contains("No tracked PRs"), "must say no tracked PRs: {}", msg);
    store.track(3);
    assert!(fp::commands::rebase_stack_nothing_tracked(&store).is_none());
}

#[test]
fn commands_governs_cmd_threads_open_returns_formatted_threads() {
    let mut store = TrackedPrs::new();
    store.track(7);
    store.update_cache(PrCache { number: 7, title: "t".into(), branch: "feat/test".into(), base: "main".into() });
    let threads = vec![Thread {
        id: 1, state: ThreadState::Open, author: "alice".into(), body: "fix this".into(),
        replies: vec![], file: Some("src/a.rs".into()), line: Some(3),
    }];
    let out = fp::commands::cmd_threads(&store, 7, &threads).unwrap();
    assert!(out.contains("7") || out.contains("fix this"), "must contain thread content, got: {}", out);
    assert!(out.starts_with("PR #7 — 1 open thread(s):\n"), "got: {}", out);
}

#[test]
fn commands_governs_cmd_threads_errors_on_untracked() {
    let store = TrackedPrs::new();
    let result = fp::commands::cmd_threads(&store, 99, &vec![]);
    assert!(result.is_err(), "must error for untracked PR");
    assert_eq!(result.unwrap_err(), "PR #99 is not tracked. Run `fp track 99`");
}

#[test]
fn create_request_is_a_draft_with_the_given_fields() {
    let opts = fp::commands::CreateOpts {
        title: "My PR Title".into(), base: "main".into(), body: Some("b".into()), restack_before: None, insert_after: None,
    };
    let r = fp::commands::create_request(&opts, "feat/my-branch");
    assert_eq!((r.title.as_str(), r.head.as_str(), r.base.as_str(), r.draft, r.body.as_deref()),
        ("My PR Title", "feat/my-branch", "main", true, Some("b")));
}

#[test]
fn merge_cleanup_reports_untracking() {
    let mut store = TrackedPrs::new();
    store.track(4);
    let mut ps = ProcessState::new();
    assert_eq!(fp::commands::merge_cleanup(&mut store, &mut ps, 4), "✓ untracked PR #4\n");
    assert!(store.numbers().is_empty());
}

#[test]
fn commands_governs_install_shell_print_returns_content() {
    let result = fp::commands::install_shell_content("fish");
    assert!(result.is_ok(), "commands::install_shell_content must succeed for fish shell");
    let content = result.unwrap();
    assert!(content.contains("fps"), "commands::install_shell_content must return fps function body: {}", content);
    assert!(fp::commands::install_shell_content("zsh").unwrap().contains("fp switch"));
    assert_eq!(fp::commands::install_shell_content("bash"), fp::commands::install_shell_content("zsh"));
}

#[test]
fn commands_governs_install_shell_unsupported_errors() {
    let result = fp::commands::install_shell_content("powershell");
    assert!(result.is_err(), "commands::install_shell_content must error for unsupported shell");
    assert_eq!(result.unwrap_err(), "unsupported shell: powershell. Supported: fish, zsh, bash");
}
