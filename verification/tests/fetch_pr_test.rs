use fp::github::{GithubClient, PrPayloads, PullJson, RepoJson};
use fp::model::{CheckStatus, PrState, ThreadState};
use fp::pr_state::{CheckRunJson, CommentJson, CommitStatusJson, ReviewJson};

fn pull(number_title: &str, head_ref: &str, head_sha: Option<&str>, base_ref: Option<&str>, draft: bool, author: &str) -> PullJson {
    PullJson {
        title: Some(number_title.into()),
        head_ref: Some(head_ref.into()),
        head_sha: head_sha.map(String::from),
        base_ref: base_ref.map(String::from),
        draft: Some(draft),
        merged: None,
        mergeable: None,
        author: Some(author.into()),
        body: None,
        node_id: None,
    }
}

fn payloads(pull: PullJson) -> PrPayloads {
    PrPayloads {
        pull,
        check_runs: vec![],
        required_contexts: vec![],
        statuses: vec![],
        reviews: vec![],
        requested_users: 0,
        requested_teams: 0,
        issue_comments: vec![],
        review_comments: vec![],
    }
}

fn run(name: &str, status: &str, conclusion: Option<&str>, started_at: Option<&str>) -> CheckRunJson {
    CheckRunJson {
        name: Some(name.into()),
        started_at: started_at.map(String::from),
        status: Some(status.into()),
        conclusion: conclusion.map(String::from),
        details_url: None,
    }
}

fn inline(id: u64, login: &str, body: &str, reply_to: Option<u64>) -> CommentJson {
    CommentJson {
        id: Some(id),
        login: Some(login.into()),
        user_type: Some("User".into()),
        body: Some(body.into()),
        created_at: None,
        in_reply_to_id: reply_to,
        path: Some("src/lib.rs".into()),
        line: Some(5),
    }
}

fn conversation(id: u64, login: &str, user_type: &str, body: &str, created_at: Option<&str>) -> CommentJson {
    CommentJson {
        id: Some(id),
        login: Some(login.into()),
        user_type: Some(user_type.into()),
        body: Some(body.into()),
        created_at: created_at.map(String::from),
        in_reply_to_id: None,
        path: None,
        line: None,
    }
}

fn review(id: u64, state: &str, body: &str, login: &str, submitted_at: &str) -> ReviewJson {
    ReviewJson {
        id: Some(id),
        state: Some(state.into()),
        body: Some(body.into()),
        login: Some(login.into()),
        user_type: Some("User".into()),
        submitted_at: Some(submitted_at.into()),
    }
}

fn fetch(number: u64, p: &PrPayloads) -> PrState {
    GithubClient::fetch_pr(number, p).unwrap()
}

#[test]
fn fetch_pr_returns_title_branch_draft() {
    let p = payloads(pull("my PR", "fix/foo", Some(""), Some("main"), false, "author"));
    let pr = fetch(42, &p);
    assert_eq!(pr.number, 42);
    assert_eq!(pr.title, "my PR");
    assert_eq!(pr.branch, "fix/foo");
    assert!(!pr.draft);
}

#[test]
fn fetch_pr_sets_draft_true() {
    let p = payloads(pull("t", "wip", None, None, true, "author"));
    assert!(fetch(1, &p).draft);
}

#[test]
fn checks_populated_with_required_flag() {
    let mut p = payloads(pull("t", "mybranch", Some(""), Some("main"), false, "author"));
    p.check_runs = vec![run("ci/test", "completed", Some("failure"), None), run("ci/lint", "completed", Some("success"), None)];
    p.required_contexts = vec!["ci/test".into()];
    let pr = fetch(5, &p);
    let test_check = pr.checks.iter().find(|c| c.name == "ci/test").unwrap();
    let lint_check = pr.checks.iter().find(|c| c.name == "ci/lint").unwrap();
    assert!(test_check.required);
    assert!(!lint_check.required);
    assert_eq!(test_check.status, CheckStatus::Fail);
    assert_eq!(lint_check.status, CheckStatus::Pass);
}

#[test]
fn skipped_and_neutral_conclusion_maps_to_pass() {
    let mut p = payloads(pull("t", "br", Some(""), Some("main"), false, "author"));
    p.check_runs = vec![run("skip-check", "completed", Some("skipped"), None), run("neutral-check", "completed", Some("neutral"), None)];
    let pr = fetch(55, &p);
    assert_eq!(pr.checks.iter().find(|c| c.name == "skip-check").unwrap().status, CheckStatus::Pass, "skipped should map to Pass");
    assert_eq!(pr.checks.iter().find(|c| c.name == "neutral-check").unwrap().status, CheckStatus::Pass, "neutral should map to Pass");
}

#[test]
fn pending_check_maps_to_pending_status() {
    let mut p = payloads(pull("t", "b", None, None, false, "author"));
    p.check_runs = vec![run("ci/test", "in_progress", None, None)];
    p.required_contexts = vec!["ci/test".into()];
    let pr = fetch(6, &p);
    assert_eq!(pr.checks.iter().find(|c| c.name == "ci/test").unwrap().status, CheckStatus::Pending);
}

#[test]
fn review_comments_mapped_to_threads() {
    let mut p = payloads(pull("t", "b", None, None, false, "author"));
    let mut c = inline(999, "maintainer", "needs fix", None);
    c.line = Some(42);
    p.review_comments = vec![c];
    let pr = fetch(7, &p);
    assert_eq!(pr.threads.len(), 1);
    let t = &pr.threads[0];
    assert_eq!(t.id, 999);
    assert_eq!(t.body, "needs fix");
    assert_eq!(t.file.as_deref(), Some("src/lib.rs"));
    assert_eq!(t.line, Some(42));
    assert_eq!(t.state, ThreadState::Open);
}

#[test]
fn reply_comment_not_surfaced_as_separate_thread() {
    let mut p = payloads(pull("t", "b", None, None, false, "author"));
    p.review_comments = vec![inline(100, "maintainer", "needs fix", None), inline(101, "author", "fixed it", Some(100))];
    let pr = fetch(11, &p);
    assert_eq!(pr.threads.len(), 1, "reply comment should not be a separate thread");
    assert_eq!(pr.threads[0].id, 100, "thread ID should be root comment ID");
}

#[test]
fn thread_author_and_reply_authors_populated() {
    let mut p = payloads(pull("t", "b", None, None, false, "author"));
    p.review_comments = vec![
        inline(300, "maintainer", "root comment", None),
        inline(301, "pr-author", "reply one", Some(300)),
        inline(302, "maintainer", "reply two", Some(300)),
    ];
    let pr = fetch(88, &p);
    assert_eq!(pr.threads.len(), 1);
    let t = &pr.threads[0];
    assert_eq!(t.author, "maintainer", "root author should be 'maintainer'");
    assert_eq!(t.replies.len(), 2);
    assert_eq!(t.replies[0].0, "pr-author", "first reply author should be 'pr-author'");
    assert_eq!(t.replies[0].1, "reply one");
    assert_eq!(t.replies[1].0, "maintainer");
    assert_eq!(t.replies[1].1, "reply two");
}

#[test]
fn thread_replies_populated_from_non_root_comments() {
    let mut p = payloads(pull("t", "b", None, None, false, "author"));
    p.review_comments = vec![
        inline(200, "maintainer", "root comment", None),
        inline(201, "author", "first reply", Some(200)),
        inline(202, "maintainer", "second reply", Some(200)),
    ];
    let pr = fetch(77, &p);
    assert_eq!(pr.threads.len(), 1);
    let t = &pr.threads[0];
    assert_eq!(t.body, "root comment");
    assert_eq!(t.replies.len(), 2, "thread should have 2 replies, got: {:?}", t.replies);
    assert_eq!(t.replies[0].1, "first reply");
    assert_eq!(t.replies[1].1, "second reply");
}

#[test]
fn thread_addressed_when_author_replied_last() {
    let mut p = payloads(pull("t", "b", None, None, false, "author"));
    p.review_comments = vec![inline(200, "maintainer", "needs fix", None), inline(201, "author", "fixed", Some(200))];
    let pr = fetch(12, &p);
    assert_eq!(pr.threads.len(), 1);
    assert_eq!(pr.threads[0].state, ThreadState::Addressed, "thread should be Addressed when PR author replied last");
}

#[test]
fn approved_true_when_approved_review_present() {
    let mut p = payloads(pull("t", "b", None, None, false, "author"));
    p.reviews = vec![ReviewJson { id: None, state: Some("APPROVED".into()), body: None, login: None, user_type: None, submitted_at: None }];
    assert!(fetch(8, &p).approved);
}

#[test]
fn approved_false_when_no_approved_review() {
    let mut p = payloads(pull("t", "b", None, None, false, "author"));
    p.reviews = vec![ReviewJson { id: None, state: Some("CHANGES_REQUESTED".into()), body: None, login: None, user_type: None, submitted_at: None }];
    assert!(!fetch(9, &p).approved);
}

#[test]
fn approved_false_when_requested_reviewers_teams_pending() {
    let mut p = payloads(pull("t", "b", Some("sha99"), Some("main"), false, "author"));
    p.reviews = vec![ReviewJson { id: None, state: Some("APPROVED".into()), body: None, login: Some("first".into()), user_type: None, submitted_at: None }];
    p.requested_teams = 1;
    assert!(!fetch(99, &p).approved, "approved must be false when teams are still pending in requested_reviewers");
}

#[test]
fn review_body_thread_addressed_when_author_replied_after() {
    let mut p = payloads(pull("t", "b", Some("sha95"), Some("main"), false, "author"));
    p.reviews = vec![review(200, "CHANGES_REQUESTED", "Fix naming", "maintainer", "2024-01-01T10:00:00Z")];
    p.issue_comments = vec![conversation(300, "author", "User", "Fixed", Some("2024-01-01T11:00:00Z"))];
    let pr = fetch(95, &p);
    let review_threads: Vec<_> = pr.threads.iter().filter(|t| t.file.is_none()).collect();
    assert_eq!(review_threads.len(), 1, "expected 1 review thread");
    assert_eq!(review_threads[0].state, ThreadState::Addressed,
        "expected Addressed when author replied after review, got {:?}", review_threads[0].state);
}

#[test]
fn review_body_thread_open_when_no_author_reply() {
    let mut p = payloads(pull("t", "b", Some("sha96"), Some("main"), false, "author"));
    p.reviews = vec![review(201, "CHANGES_REQUESTED", "Fix naming", "maintainer", "2024-01-01T10:00:00Z")];
    let pr = fetch(96, &p);
    let review_threads: Vec<_> = pr.threads.iter().filter(|t| t.file.is_none()).collect();
    assert_eq!(review_threads.len(), 1, "expected 1 review thread");
    assert_eq!(review_threads[0].state, ThreadState::Open, "expected Open when no author reply, got {:?}", review_threads[0].state);
}

#[test]
fn review_body_thread_open_when_reviewer_replies_after_author() {
    let mut p = payloads(pull("t", "b", Some("sha97"), Some("main"), false, "author"));
    p.reviews = vec![review(202, "CHANGES_REQUESTED", "Fix naming", "maintainer", "2024-01-01T10:00:00Z")];
    p.issue_comments = vec![
        conversation(301, "author", "User", "Fixed", Some("2024-01-01T11:00:00Z")),
        conversation(302, "maintainer", "User", "Still not quite right", Some("2024-01-01T12:00:00Z")),
    ];
    let pr = fetch(97, &p);
    let review_body = pr.threads.iter().filter(|t| t.file.is_none()).find(|t| t.id == 202);
    assert!(review_body.is_some(), "expected review body thread with id=202");
    assert_eq!(review_body.unwrap().state, ThreadState::Open,
        "expected Open when the commenter replied after author, got {:?}", review_body.unwrap().state);
}

#[test]
fn required_names_from_base_branch_not_head() {
    let mut p = payloads(pull("t", "feat/x", Some("sha1"), Some("main"), false, "author"));
    p.check_runs = vec![run("ci/test", "completed", Some("failure"), None)];
    p.required_contexts = vec!["ci/test".into()];
    let pr = fetch(30, &p);
    assert!(pr.checks.iter().find(|c| c.name == "ci/test").unwrap().required,
        "ci/test should be required per base branch (main) protection");
}

#[test]
fn commit_statuses_merged_into_checks() {
    let mut p = payloads(pull("t", "b", Some("abc123"), Some("main"), false, "author"));
    p.check_runs = vec![run("lint", "completed", Some("success"), None)];
    p.required_contexts = vec!["buildkite/ci".into()];
    p.statuses = vec![
        CommitStatusJson { context: Some("buildkite/ci".into()), state: Some("failure".into()), target_url: Some("https://buildkite.com/build/1".into()) },
        CommitStatusJson { context: Some("buildkite/lint".into()), state: Some("success".into()), target_url: None },
    ];
    let pr = fetch(20, &p);
    assert!(pr.checks.iter().any(|c| c.name == "lint"), "check-run check missing");
    let bk = pr.checks.iter().find(|c| c.name == "buildkite/ci").expect("buildkite/ci status missing from checks");
    assert_eq!(bk.status, CheckStatus::Fail, "failure state should map to Fail");
    assert!(bk.required, "buildkite/ci should be required per branch protection");
    assert_eq!(bk.details_url.as_deref(), Some("https://buildkite.com/build/1"));
    let bk_lint = pr.checks.iter().find(|c| c.name == "buildkite/lint").expect("buildkite/lint status missing");
    assert_eq!(bk_lint.status, CheckStatus::Pass);
    assert!(!bk_lint.required);
}

#[test]
fn fetch_pr_populates_base_field() {
    let p = payloads(pull("t", "feat/x", Some("abc"), Some("develop"), false, "author"));
    assert_eq!(fetch(55, &p).base, "develop");
}

#[test]
fn check_run_dedup_keeps_latest_by_started_at() {
    let mut p = payloads(pull("t", "br", Some("sha50"), Some("main"), false, "author"));
    p.check_runs = vec![
        run("rspec", "completed", Some("failure"), Some("2026-05-01T00:00:00Z")),
        run("rspec", "completed", Some("success"), Some("2026-05-06T00:00:00Z")),
    ];
    let pr = fetch(50, &p);
    let rspec_checks: Vec<_> = pr.checks.iter().filter(|c| c.name == "rspec").collect();
    assert_eq!(rspec_checks.len(), 1, "expected exactly 1 rspec check after dedup");
    assert_eq!(rspec_checks[0].status, CheckStatus::Pass, "expected latest (passing) run to win");
}

#[test]
fn commit_status_dedup_drops_duplicate_context() {
    let mut p = payloads(pull("t", "br51", Some("sha51"), Some("main"), false, "author"));
    p.statuses = vec![
        CommitStatusJson { context: Some("buildkite/primary".into()), state: Some("success".into()), target_url: Some("https://buildkite.com/org/p/builds/1".into()) },
        CommitStatusJson { context: Some("buildkite/primary".into()), state: Some("failure".into()), target_url: Some("https://buildkite.com/org/p/builds/0".into()) },
    ];
    let pr = fetch(51, &p);
    let bk: Vec<_> = pr.checks.iter().filter(|c| c.name == "buildkite/primary").collect();
    assert_eq!(bk.len(), 1, "expected exactly 1 buildkite/primary status after dedup");
    assert_eq!(bk[0].status, CheckStatus::Pass, "expected first (most recent) status entry to win");
}

#[test]
fn issue_comment_from_reviewer_is_open_thread() {
    let mut p = payloads(pull("t", "b", Some("sha1"), Some("main"), false, "author"));
    p.issue_comments = vec![conversation(1, "maintainer", "User", "please fix this", None)];
    let pr = fetch(77, &p);
    let issue_threads: Vec<_> = pr.threads.iter().filter(|t| t.file.is_none()).collect();
    assert_eq!(issue_threads.len(), 1, "expected 1 issue-level thread, got {}", issue_threads.len());
    assert_eq!(issue_threads[0].state, ThreadState::Open, "expected Open state");
}

#[test]
fn issue_comment_from_bot_is_excluded() {
    let mut p = payloads(pull("t", "b", Some("sha2"), Some("main"), false, "author"));
    p.issue_comments = vec![conversation(2, "github-actions[bot]", "Bot", "CI passed", None)];
    let pr = fetch(78, &p);
    assert_eq!(pr.threads.iter().filter(|t| t.file.is_none()).count(), 0, "expected bot comment to be excluded");
}

#[test]
fn issue_comment_with_author_reply_is_addressed() {
    let mut p = payloads(pull("t", "b", Some("sha3"), Some("main"), false, "author"));
    p.issue_comments = vec![
        conversation(3, "maintainer", "User", "please clarify", None),
        conversation(4, "author", "User", "done", None),
    ];
    let pr = fetch(79, &p);
    let issue_threads: Vec<_> = pr.threads.iter().filter(|t| t.file.is_none()).collect();
    assert_eq!(issue_threads.len(), 1, "expected 1 issue-level thread");
    assert_eq!(issue_threads[0].state, ThreadState::Addressed, "expected Addressed state");
}

#[test]
fn issue_comment_thread_has_no_file_or_line() {
    let mut p = payloads(pull("t", "b", Some("sha4"), Some("main"), false, "author"));
    p.issue_comments = vec![conversation(5, "maintainer", "User", "general comment", None)];
    let pr = fetch(80, &p);
    let issue_threads: Vec<_> = pr.threads.iter().filter(|t| t.file.is_none()).collect();
    assert_eq!(issue_threads.len(), 1, "expected 1 issue-level thread");
    assert!(issue_threads[0].file.is_none(), "expected file to be None");
    assert!(issue_threads[0].line.is_none(), "expected line to be None");
}

#[test]
fn issue_comment_from_author_is_excluded() {
    let mut p = payloads(pull("t", "b", Some("sha5"), Some("main"), false, "author"));
    p.issue_comments = vec![conversation(6, "author", "User", "I updated the PR", None)];
    let pr = fetch(81, &p);
    assert_eq!(pr.threads.iter().filter(|t| t.file.is_none()).count(), 0, "expected author's own comment to be excluded");
}

#[test]
fn review_changes_requested_with_body_is_open_thread() {
    let mut p = payloads(pull("t", "b", Some("sha90"), Some("main"), false, "author"));
    p.reviews = vec![review(100, "CHANGES_REQUESTED", "Please fix the naming", "maintainer", "2024-01-01T00:00:00Z")];
    let pr = fetch(90, &p);
    let review_threads: Vec<_> = pr.threads.iter().filter(|t| t.file.is_none()).collect();
    assert_eq!(review_threads.len(), 1, "expected 1 review thread, got {}", review_threads.len());
    assert_eq!(review_threads[0].state, ThreadState::Open, "expected Open");
}

#[test]
fn review_approved_is_excluded() {
    let mut p = payloads(pull("t", "b", Some("sha91"), Some("main"), false, "author"));
    p.reviews = vec![review(101, "APPROVED", "Looks fine", "maintainer", "2024-01-01T00:00:00Z")];
    assert_eq!(fetch(91, &p).threads.iter().filter(|t| t.file.is_none()).count(), 0, "expected APPROVED review to be excluded");
}

#[test]
fn review_with_empty_body_is_excluded() {
    let mut p = payloads(pull("t", "b", Some("sha92"), Some("main"), false, "author"));
    p.reviews = vec![review(102, "COMMENTED", "", "maintainer", "2024-01-01T00:00:00Z")];
    assert_eq!(fetch(92, &p).threads.iter().filter(|t| t.file.is_none()).count(), 0, "expected empty-body review to be excluded");
}

#[test]
fn review_thread_has_no_file_or_line() {
    let mut p = payloads(pull("t", "b", Some("sha93"), Some("main"), false, "author"));
    p.reviews = vec![review(103, "CHANGES_REQUESTED", "Fix this", "maintainer", "2024-01-01T00:00:00Z")];
    let pr = fetch(93, &p);
    let review_threads: Vec<_> = pr.threads.iter().filter(|t| t.file.is_none()).collect();
    assert_eq!(review_threads.len(), 1, "expected 1 review thread");
    assert!(review_threads[0].file.is_none() && review_threads[0].line.is_none());
}

#[test]
fn review_from_author_is_excluded() {
    let mut p = payloads(pull("t", "b", Some("sha94"), Some("main"), false, "author"));
    p.reviews = vec![review(104, "COMMENTED", "I updated this", "author", "2024-01-01T00:00:00Z")];
    assert_eq!(fetch(94, &p).threads.iter().filter(|t| t.file.is_none()).count(), 0, "expected author review to be excluded");
}

#[test]
fn fetch_checks_for_sha_returns_checks_with_status() {
    let mut runs = vec![
        run("build", "completed", Some("failure"), None),
        run("lint", "completed", Some("success"), None),
        run("test", "completed", Some("failure"), None),
    ];
    for (i, r) in runs.iter_mut().enumerate() {
        r.details_url = Some(format!("https://ci.example.com/runs/{}", i + 1));
    }
    let checks = GithubClient::fetch_checks_for_sha(&runs);
    assert_eq!(checks.len(), 3, "expected 3 checks total");
    let failed: Vec<_> = checks.iter().filter(|c| c.status == CheckStatus::Fail).collect();
    assert_eq!(failed.len(), 2, "expected 2 failed checks");
    assert!(failed.iter().any(|c| c.name == "build"));
    assert!(failed.iter().any(|c| c.name == "test"));
    assert!(failed[0].details_url.is_some(), "expected details_url on failed check");
}

#[test]
fn fetch_pr_metadata_returns_title_and_branch() {
    let p = pull("my feature", "feat/thing", None, None, false, "author");
    let (title, branch) = GithubClient::fetch_pr_metadata(&p);
    assert_eq!(title, "my feature");
    assert_eq!(branch, "feat/thing");
}

#[test]
fn fetch_pr_base_returns_base_branch() {
    let p = pull("child PR", "feat/child", None, Some("feat/parent"), false, "author");
    assert_eq!(GithubClient::fetch_pr_base(&p), "feat/parent");
}

#[test]
fn fetch_pr_head_sha_and_base_returns_correct_fields() {
    let p = pull("merged PR", "feat/merged", Some("abc123def"), Some("main"), false, "author");
    let (sha, base) = GithubClient::fetch_pr_head_sha_and_base(&p);
    assert_eq!(sha, "abc123def");
    assert_eq!(base, "main");
}

#[test]
fn fetch_pr_is_merged_returns_correct_state() {
    let mut open = pull("open PR", "a", Some("aaa"), Some("main"), false, "author");
    open.merged = Some(false);
    let mut merged = pull("merged PR", "b", Some("bbb"), Some("main"), false, "author");
    merged.merged = Some(true);
    assert!(!GithubClient::fetch_pr_is_merged(&open));
    assert!(GithubClient::fetch_pr_is_merged(&merged));
}

#[test]
fn fetch_pr_body_returns_current_body() {
    let mut p = pull("t", "b", None, None, false, "author");
    p.body = Some("existing PR description".into());
    assert_eq!(GithubClient::fetch_pr_body(&p), "existing PR description", "expected current PR body");
}

#[test]
fn fetch_pr_body_returns_empty_when_null() {
    let p = pull("t", "b", None, None, false, "author");
    assert_eq!(GithubClient::fetch_pr_body(&p), "", "null body should return empty string");
}

#[test]
fn fetch_prs_as_map_returns_map_keyed_by_number() {
    let a = fetch(201, &payloads(pull("t", "feat/x", Some(""), Some("main"), false, "author")));
    let b = fetch(202, &payloads(pull("t", "feat/y", Some(""), Some("main"), false, "author")));
    let map = GithubClient::fetch_prs_as_map(vec![a, b]);
    assert!(map.contains_key(&201), "expected key 201");
    assert!(map.contains_key(&202), "expected key 202");
    assert_eq!(map[&201].number, 201);
    assert_eq!(map[&202].number, 202);
}

#[test]
fn repo_merge_method_prefers_squash() {
    let repo = RepoJson { allow_squash_merge: Some(true), allow_merge_commit: Some(true), allow_rebase_merge: Some(false) };
    assert_eq!(GithubClient::fetch_repo_merge_method(&repo), "squash", "expected squash preferred when multiple methods allowed");
    let rebase = RepoJson { allow_squash_merge: Some(false), allow_merge_commit: Some(true), allow_rebase_merge: Some(true) };
    assert_eq!(GithubClient::fetch_repo_merge_method(&rebase), "rebase");
    let none = RepoJson { allow_squash_merge: None, allow_merge_commit: None, allow_rebase_merge: None };
    assert_eq!(GithubClient::fetch_repo_merge_method(&none), "squash");
}

#[test]
fn merge_conflict_flag_from_mergeable() {
    let mut p = payloads(pull("t", "b", None, None, false, "author"));
    p.pull.mergeable = Some(false);
    assert!(fetch(3, &p).has_merge_conflict);
    p.pull.mergeable = None;
    assert!(!fetch(3, &p).has_merge_conflict);
}

fn repo(squash: bool, merge: bool, rebase: bool) -> RepoJson {
    RepoJson { allow_squash_merge: Some(squash), allow_merge_commit: Some(merge), allow_rebase_merge: Some(rebase) }
}

#[test]
fn check_details_url_populated() {
    let mut p = payloads(pull("t", "b", None, None, false, "author"));
    let mut r = run("ci/test", "completed", Some("failure"), None);
    r.details_url = Some("https://buildkite.com/org/pipeline/builds/123".into());
    p.check_runs = vec![r];
    let pr = fetch(10, &p);
    let check = pr.checks.iter().find(|c| c.name == "ci/test").unwrap();
    assert_eq!(check.details_url.as_deref(), Some("https://buildkite.com/org/pipeline/builds/123"));
}

#[test]
fn fetch_pr_sets_has_merge_conflict_when_mergeable_false() {
    let mut p = payloads(pull("t", "b", None, None, false, "author"));
    p.pull.mergeable = Some(false);
    assert!(fetch(1, &p).has_merge_conflict, "expected has_merge_conflict=true when mergeable=false");
}

#[test]
fn fetch_pr_clears_has_merge_conflict_when_mergeable_true() {
    let mut p = payloads(pull("t", "b", None, None, false, "author"));
    p.pull.mergeable = Some(true);
    assert!(!fetch(1, &p).has_merge_conflict, "expected has_merge_conflict=false when mergeable=true");
}

#[test]
fn fetch_pr_clears_has_merge_conflict_when_mergeable_null() {
    let mut p = payloads(pull("t", "b", None, None, false, "author"));
    p.pull.mergeable = None;
    assert!(!fetch(1, &p).has_merge_conflict, "expected has_merge_conflict=false when mergeable=null");
}

#[test]
fn fetch_repo_merge_methods_returns_squash_when_only_squash_allowed() {
    assert_eq!(GithubClient::fetch_repo_merge_method(&repo(true, false, false)), "squash", "expected squash when only squash allowed");
}

#[test]
fn fetch_repo_merge_methods_returns_merge_when_only_merge_allowed() {
    assert_eq!(GithubClient::fetch_repo_merge_method(&repo(false, true, false)), "merge", "expected merge when only merge commit allowed");
}

#[test]
fn fetch_repo_merge_methods_returns_rebase_when_only_rebase_allowed() {
    assert_eq!(GithubClient::fetch_repo_merge_method(&repo(false, false, true)), "rebase", "expected rebase when only rebase allowed");
}

#[test]
fn fetch_repo_merge_methods_prefers_squash_when_multiple_allowed() {
    assert_eq!(GithubClient::fetch_repo_merge_method(&repo(true, true, true)), "squash");
}

#[test]
fn create_pr_posts_and_returns_number() {
    let reply = PullJson {
        title: Some("my feature".into()), head_ref: Some("feat/thing".into()), head_sha: None, base_ref: None,
        draft: None, merged: None, mergeable: None, author: None, body: None, node_id: None,
    };
    let pr = GithubClient::create_pr_with_body(Some(42), &reply);
    assert_eq!(pr.number, 42);
    assert_eq!(pr.title, "my feature");
    assert_eq!(pr.branch, "feat/thing");
}

#[test]
fn create_pr_sends_body_to_api() {
    let reply = PullJson {
        title: Some("my PR".into()), head_ref: Some("feat/x".into()), head_sha: None, base_ref: None,
        draft: None, merged: None, mergeable: None, author: None, body: None, node_id: None,
    };
    let result = GithubClient::create_pr_with_body(Some(10), &reply);
    assert_eq!(result.number, 10);
}

#[test]
fn fetch_pr_errors_when_pr_author_missing() {
    let mut pr = pull("t", "branch", Some("abc"), Some("main"), false, "author");
    pr.author = None;
    let result = GithubClient::fetch_pr(99, &payloads(pr));
    assert!(result.is_err(), "fetch_pr must error when user.login is absent");
    assert!(result.unwrap_err().contains("could not determine PR author"),
        "error must mention 'could not determine PR author'");
}
