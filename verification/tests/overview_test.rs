use fp::model::PrCache;
use fp::overview::{
    cmd_ls, cmd_status_one, status_all_text, watch_step, switch_plan, merged_rebase_plan, merged_rebase_line,
    untracked_merged_line, MergedPr, MergedStep, StatusInput, WatchPr,
};
use fp::process::ProcessState;
use fp::app_config::AppConfigStore;
use fp::tasks::{Task, TaskType};
use fp::tracking::TrackedPrs;

fn store_with(n: u64, title: &str, branch: &str, base: &str) -> TrackedPrs {
    let mut s = TrackedPrs::new();
    s.track(n);
    s.update_cache(PrCache { number: n, title: title.into(), branch: branch.into(), base: base.into() });
    s
}

fn task(t: TaskType, blocking: bool, d: &str) -> Task {
    Task { pr: 5, task_type: t, blocking, description: d.into(), context_hint: "hint".into() }
}

#[test]
fn commands_governs_cmd_ls_text_lists_tracked_prs() {
    let store = store_with(7, "my feature", "feat/my-feature", "main");
    let out = cmd_ls(&store, "alice", "myrepo", &vec![(7, String::new())]);
    assert!(out.contains("#7"), "cmd_ls text must contain PR number, got: {}", out);
    assert!(out.contains("my feature"), "cmd_ls text must contain title, got: {}", out);
    assert!(out.contains("feat/my-feature"), "cmd_ls text must contain branch, got: {}", out);
    assert_eq!(out, "alice/myrepo\n#7 my feature (feat/my-feature)\n");
}

#[test]
fn commands_governs_cmd_ls_text_empty_shows_no_tracked() {
    let store = TrackedPrs::new();
    let out = cmd_ls(&store, "alice", "myrepo", &vec![]);
    assert!(out.contains("No tracked PRs"), "cmd_ls with empty store must say 'No tracked PRs', got: {}", out);
}

#[test]
fn ls_follows_the_stack_order_with_prefixes() {
    let mut store = store_with(1, "parent", "feat/p", "main");
    store.track(2);
    store.update_cache(PrCache { number: 2, title: "child".into(), branch: "feat/c".into(), base: "feat/p".into() });
    let out = cmd_ls(&store, "o", "r", &vec![(1, String::new()), (2, "└─ ".into()), (3, "x".into())]);
    assert_eq!(out, "o/r\n#1 parent (feat/p)\n└─ #2 child (feat/c)\n");
}

#[test]
fn commands_governs_cmd_status_one_errors_on_untracked() {
    let store = TrackedPrs::new();
    let result = cmd_status_one(&store, 42, &[], None, false, false, false);
    assert!(result.is_err(), "must error for untracked PR");
    assert!(result.unwrap_err().contains("not tracked"), "error must say 'not tracked'");
}

#[test]
fn status_one_of_a_tracked_pr_lists_its_tasks() {
    let store = store_with(5, "t", "feat/t", "main");
    assert_eq!(cmd_status_one(&store, 5, &[], None, false, false, false).unwrap(), "PR #5 is ready.");
}

#[test]
fn commands_governs_cmd_status_all_lists_tracked_prs() {
    let store = store_with(5, "test", "feat/test", "main");
    let ps = ProcessState::new();
    let configs = AppConfigStore::open("config.toml".into());
    let inputs = vec![StatusInput { number: 5, tasks: vec![], lock: String::new(), is_closed: false, is_merged: false, draft: false }];
    let out = status_all_text(&store, &ps, &configs, "o", "r", &vec![(5, String::new())], &inputs, &[], &[]);
    assert!(out.contains("PR #5") || out.contains("#5"), "must contain PR number, got: {}", out);
    assert_eq!(out, "o/r\nPR #5 test — ready\n");
}

#[test]
fn cmd_watch_once_empty_store_returns_ok() {
    let step = watch_step(&vec![], &vec![], true, None);
    assert_eq!(step.text, "");
    assert!(step.stop);
}

#[test]
fn cmd_watch_once_with_tracked_pr_returns_initial_state_output() {
    let prs = vec![WatchPr {
        number: 5, title: "test".into(), prefix: String::new(), lock: None,
        tasks: vec![task(TaskType::FixCi, true, "CI failing")], new: vec![], resolved: vec![],
    }];
    let step = watch_step(&vec![], &prs, true, None);
    assert!(step.text.starts_with("PR #5 test"), "got: {}", step.text);
    assert_eq!(step.seen, vec![5]);
    assert!(step.notes.is_empty());
}

#[test]
fn watch_reports_changes_of_seen_prs_and_stops_on_condition() {
    let prs = vec![WatchPr {
        number: 5, title: "test".into(), prefix: String::new(), lock: None,
        tasks: vec![], new: vec![], resolved: vec![task(TaskType::FixCi, true, "CI failing")],
    }];
    let step = watch_step(&vec![5], &prs, false, Some("ci-pass"));
    assert_eq!(step.text, "✓ PR #5 resolved FixCi: CI failing\n");
    assert_eq!(step.notes, vec![("fp: #5".to_string(), "CI passing: hint".to_string())]);
    assert!(step.stop);
    assert_eq!(step.seen, vec![5]);
    let waiting = vec![WatchPr {
        number: 5, title: "test".into(), prefix: String::new(), lock: None,
        tasks: vec![task(TaskType::AwaitingCi, false, "CI running")], new: vec![], resolved: vec![],
    }];
    assert!(!watch_step(&vec![5], &waiting, false, Some("ci-pass")).stop);
    assert!(watch_step(&vec![5], &waiting, false, Some("ready")).stop);
}

#[test]
fn cmd_switch_governs_non_interactive_skips_prompts() {
    let store = store_with(5, "t", "feat/x", "main");
    match switch_plan(&store, 5, "/repo", "main", true, false, false, false, true, None) {
        Err(e) => assert!(!e.contains("uncommitted changes"), "non_interactive must skip the dirty check: {}", e),
        Ok(p) => {
            assert_eq!(p.worktree, "/repo-worktrees/feat/x");
            assert!(p.create_worktree && !p.checkout_main && p.adopt_message.is_none());
        }
    }
}

#[test]
fn switch_refuses_untracked_dirty_and_checked_out() {
    let store = store_with(5, "t", "feat/x", "main");
    assert_eq!(switch_plan(&store, 6, "/repo", "main", false, false, false, false, false, None).err().unwrap(),
        "PR #6 is not tracked. Run `fp track 6`");
    assert_eq!(switch_plan(&store, 5, "/repo", "main", true, false, false, false, false, None).err().unwrap(),
        "current worktree has uncommitted changes — commit, stash, or use --force to override");
    let e = switch_plan(&store, 5, "/repo", "feat/x", false, false, false, false, false, None).err().unwrap();
    assert!(e.contains("checked out in main worktree") && e.contains("fps root"), "got: {}", e);
    let p = switch_plan(&store, 5, "/repo", "feat/x", false, true, false, true, false, None).unwrap();
    assert!(p.checkout_main && !p.create_worktree);
    assert_eq!(p.adopt_message.unwrap(), "Adopted feat/x — checked out main in main worktree, created fp worktree\n");
}

#[test]
fn merged_prs_rebase_their_children_then_untrack() {
    let merged = vec![MergedPr { number: 1, branch: "feat/p".into(), head_sha: "abc".into(), base_ref: "main".into() }];
    let parent_of = vec![
        ("feat/c1".to_string(), Some("feat/p".to_string())),
        ("feat/c2".to_string(), Some("feat/p".to_string())),
        ("feat/o".to_string(), None),
    ];
    let locks = vec![("feat/c2".to_string(), "⚠ feat/c2 is locked".to_string())];
    let steps = merged_rebase_plan(&merged, &parent_of, &locks);
    assert_eq!(steps.len(), 3);
    assert!(matches!(&steps[0], MergedStep::Rebase { branch, head_sha, base_ref, pr: 1 }
        if branch == "feat/c1" && head_sha == "abc" && base_ref == "main"));
    assert!(matches!(&steps[1], MergedStep::Warn(w) if w == "⚠ feat/c2 is locked"));
    assert!(matches!(&steps[2], MergedStep::Untrack { pr: 1, branch } if branch == "feat/p"));
    assert_eq!(merged_rebase_line("feat/c1", "main", 1, None), "✓ rebased feat/c1 onto main (merged PR #1)\n");
    assert_eq!(merged_rebase_line("feat/c1", "main", 1, Some("boom")), "✗ failed to rebase feat/c1 after merge: boom\n");
    assert_eq!(untracked_merged_line(1), "✓ untracked merged PR #1\n");
}

use fp::overview::{
    untracked_squash_prs, squash_rebase_step, squash_rebase_line, rebase_scope, rebase_targets, rebase_stack_step,
    RebaseAction, RebaseEvent, RebasePhase, RebaseState,
};

#[test]
fn untracked_squash_prs_keep_order_and_drop_tracked() {
    let store = store_with(7, "t", "feat/t", "main");
    let squash = vec![("a".to_string(), 9), ("b".to_string(), 7), ("c".to_string(), 3)];
    assert_eq!(untracked_squash_prs(&store, &squash), vec![9, 3]);
}

#[test]
fn squash_steps_skip_unrelated_prs_and_respect_locks() {
    assert!(squash_rebase_step("feat/c", 9, None, false, None, "main").is_none());
    assert!(squash_rebase_step("feat/c", 9, Some("cut".into()), true, None, "main").is_none());
    assert!(matches!(squash_rebase_step("feat/c", 9, Some("cut".into()), false, Some("⚠ locked".into()), "main"),
        Some(MergedStep::Warn(w)) if w == "⚠ locked"));
    assert!(matches!(squash_rebase_step("feat/c", 9, Some("cut".into()), false, None, "main"),
        Some(MergedStep::Rebase { branch, head_sha, base_ref, pr: 9 }) if branch == "feat/c" && head_sha == "cut" && base_ref == "main"));
    assert_eq!(squash_rebase_line("feat/c", 9, None), "✓ rebased feat/c after untracked squash of PR #9\n");
    assert_eq!(squash_rebase_line("feat/c", 9, Some("x")), "✗ failed to rebase feat/c after squash of PR #9: x\n");
}

#[test]
fn rebase_scope_follows_from_pr() {
    let store = store_with(1, "p", "feat/p", "main");
    let parent_of = vec![
        ("feat/p".to_string(), None),
        ("feat/c".to_string(), Some("feat/p".to_string())),
        ("feat/g".to_string(), Some("feat/c".to_string())),
        ("feat/o".to_string(), None),
    ];
    let all: Vec<String> = vec!["feat/p".into(), "feat/c".into(), "feat/g".into(), "feat/o".into()];
    assert_eq!(rebase_scope(&store, None, &parent_of, &all).unwrap(), all);
    assert_eq!(rebase_scope(&store, Some(1), &parent_of, &all).unwrap(), vec!["feat/p", "feat/c", "feat/g"]);
    assert_eq!(rebase_scope(&store, Some(5), &parent_of, &all).err().unwrap(), "PR #5 is not tracked");
}

#[test]
fn rebase_targets_warn_skip_and_keep() {
    let parent_of = vec![
        ("feat/p".to_string(), None),
        ("feat/c".to_string(), Some("feat/p".to_string())),
        ("feat/o".to_string(), None),
    ];
    let scoped: Vec<String> = vec!["feat/p".into(), "feat/c".into(), "feat/o".into()];
    let locks = vec![("feat/p".to_string(), "⚠ feat/p is locked".to_string())];
    let t = rebase_targets(&scoped, &locks, &parent_of);
    assert_eq!(t.text, "⚠ feat/p is locked\n⚠ skipping feat/c — parent branch is locked\n");
    assert_eq!(t.branches, vec!["feat/o"]);
}

#[test]
fn cmd_rebase_stack_returns_up_to_date_when_no_tracked_prs_as_a_run() {
    let (s, a) = rebase_stack_step(RebaseState { phase: RebasePhase::Start, out: String::new() },
        RebaseEvent::Started { count: 0, online: true });
    assert!(s.phase == RebasePhase::Done);
    assert!(matches!(a, RebaseAction::Finish(Ok(t)) if t.contains("No tracked PRs")));
}

#[test]
fn rebase_stack_run_goes_through_its_phases() {
    let st = RebaseState { phase: RebasePhase::Start, out: String::new() };
    let (st, a) = rebase_stack_step(st, RebaseEvent::Started { count: 2, online: true });
    assert!(matches!(a, RebaseAction::HandleMerged));
    let (st, a) = rebase_stack_step(st, RebaseEvent::MergedHandled { report: "m\n".into(), remaining: 1 });
    assert!(matches!(a, RebaseAction::HandleSquash));
    let (st, a) = rebase_stack_step(st, RebaseEvent::SquashHandled { report: "s\n".into() });
    assert!(matches!(a, RebaseAction::Scope));
    let (st, a) = rebase_stack_step(st, RebaseEvent::Scoped { scope: Ok(vec!["feat/a".into()]), lock_report: "l\n".into() });
    assert!(matches!(&a, RebaseAction::RebaseBranches(bs) if bs == &vec!["feat/a".to_string()]));
    let (st, a) = rebase_stack_step(st, RebaseEvent::Rebased { report: "Stack is already up to date.\n".into() });
    assert!(st.phase == RebasePhase::Done);
    assert!(matches!(a, RebaseAction::Finish(Ok(t)) if t == "m\ns\nl\nStack is already up to date.\n"));
    let (_, a) = rebase_stack_step(RebaseState { phase: RebasePhase::Scope, out: String::new() },
        RebaseEvent::Scoped { scope: Err("PR #5 is not tracked".into()), lock_report: String::new() });
    assert!(matches!(a, RebaseAction::Finish(Err(e)) if e == "PR #5 is not tracked"));
    let (_, a) = rebase_stack_step(RebaseState { phase: RebasePhase::Start, out: String::new() },
        RebaseEvent::SquashHandled { report: String::new() });
    assert!(matches!(a, RebaseAction::Finish(Err(_))));
}

#[test]
fn switch_refuses_a_branch_locked_by_another_session() {
    let store = store_with(5, "t", "feat/x", "main");
    assert_eq!(switch_plan(&store, 5, "/repo", "main", false, false, false, false, false,
        Some("feat/x is locked by another session".into())).err().unwrap(), "feat/x is locked by another session");
}
