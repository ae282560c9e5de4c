use fp::display::{format_conflict_hint, format_single_pr_status, format_adopt_message, format_new_worktree_output, repo_header};
use fp::model::PrCache;
use fp::display::{watch_event_lines, format_pr_status_all_entry, watch_notification_messages};
use fp::tasks::{Task, TaskType};

#[test]
fn display_module_governs_format_single_pr_status() {
    let out = format_single_pr_status(7, &[], None, false, false, false);
    assert!(out.contains("ready"), "got: {}", out);
}

#[test]
fn display_governs_format_single_pr_status_shows_closed_tag() {
    let out = format_single_pr_status(8, &[], None, true, false, false);
    assert!(out.contains("[closed]"), "must show [closed] when is_closed=true, got: {}", out);
}

#[test]
fn display_governs_format_single_pr_status_shows_merged_tag() {
    let out = format_single_pr_status(9, &[], None, false, true, false);
    assert!(out.contains("[merged]"), "must show [merged] when is_merged=true, got: {}", out);
}

#[test]
fn display_governs_format_single_pr_status_shows_draft_tag() {
    let out = format_single_pr_status(10, &[], None, false, false, true);
    assert!(out.contains("[draft]"), "must show [draft] when draft=true, got: {}", out);
}

#[test]
fn display_governs_format_single_pr_status_no_tags_when_open() {
    let out = format_single_pr_status(11, &[], None, false, false, false);
    assert!(!out.contains("[closed]") && !out.contains("[merged]") && !out.contains("[draft]"),
        "must not show tags when open non-draft, got: {}", out);
}

#[test]
fn display_module_governs_format_conflict_hint() {
    let prs: Vec<PrCache> = Vec::new();
    let hint = format_conflict_hint("feat/x", &prs);
    assert!(hint.is_empty());
}

#[test]
fn adopt_message_names_branch() {
    assert_eq!(format_adopt_message("feat/a"),
        "Adopted feat/a — checked out main in main worktree, created fp worktree\n");
}

#[test]
fn new_worktree_output_exact() {
    assert_eq!(format_new_worktree_output("/r/wt", "feat/a"), "Created worktree at /r/wt\nuse: fps feat/a\n");
}

#[test]
fn repo_header_joins_owner_and_repo() {
    assert_eq!(repo_header("alice", "proj"), "alice/proj");
}

#[test]
fn single_status_without_tasks_and_tags_is_exact() {
    let tasks: Vec<Task> = vec![];
    let out = format_single_pr_status(11, &tasks, None, false, false, false);
    assert!(out.starts_with("PR #11"), "got: {}", out);
}

#[test]
fn watch_event_lines_list_new_then_resolved_tasks() {
    let new = vec![Task { pr: 3, task_type: TaskType::FixCi, blocking: true, description: "ci red".into(), context_hint: "".into() }];
    let resolved = vec![Task { pr: 3, task_type: TaskType::AwaitingReview, blocking: false, description: "review".into(), context_hint: "".into() }];
    assert_eq!(watch_event_lines(3, &new, &resolved),
        "+ PR #3 [blocking] FixCi: ci red\n✓ PR #3 resolved AwaitingReview: review\n");
    assert_eq!(watch_event_lines(3, &[], &[]), "");
}

fn task(task_type: TaskType, blocking: bool, description: &str, hint: &str) -> Task {
    Task { pr: 9, task_type, blocking, description: description.into(), context_hint: hint.into() }
}

#[test]
fn status_all_entries() {
    assert_eq!(format_pr_status_all_entry("", 9, "Fix", &[], "", None, false, false, true),
        "PR #9 Fix — ready  [draft]\n");
    let tasks = vec![task(TaskType::FixCi, true, "ci red", "")];
    assert_eq!(format_pr_status_all_entry("└─ ", 9, "Fix", &tasks, "  🔒 agent", Some("✓ up"), false, true, false),
        "└─ PR #9 Fix — 1 task(s)  🔒 agent  [✓ up]  [merged]\n     [blocking] FixCi: ci red\n");
}

#[test]
fn watch_notifications() {
    let new = vec![task(TaskType::RespondThread, true, "please fix", ""), task(TaskType::MarkReady, false, "x", "")];
    let resolved = vec![task(TaskType::FixCi, true, "", "build"), task(TaskType::AwaitingReview, false, "", "")];
    let msgs = watch_notification_messages(9, &new, &resolved);
    assert_eq!(msgs, vec![
        ("fp: #9".to_string(), "CI passing: build".to_string()),
        ("fp: #9".to_string(), "PR approved".to_string()),
        ("fp: #9".to_string(), "New review thread: please fix".to_string()),
    ]);
}
