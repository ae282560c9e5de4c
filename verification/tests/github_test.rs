use fp::github::{parse_github_remote_pub, fetch_open_threads, resolve_track_branch, resolve_github_token_with,
    parse_gh_image_output, inject_demo_section, extract_github_session_from_browser_with_chrome_db,
    parse_upload_token, reply_to_thread, ReplyRoute, cached_merge_method, remember_merge_method, GithubClient, PullJson};
use fp::model::{Thread, ThreadState};

fn thread(id: u64, state: ThreadState, body: &str) -> Thread {
    Thread { id, state, author: "".into(), body: body.into(), replies: vec![], file: None, line: None }
}

#[test]
fn parse_https_remote() {
    let result = parse_github_remote_pub("https://github.com/owner/repo.git");
    assert_eq!(result, Some(("owner".into(), "repo".into())));
}

#[test]
fn parse_ssh_remote() {
    let result = parse_github_remote_pub("git@github.com:owner/repo.git");
    assert_eq!(result, Some(("owner".into(), "repo".into())));
}

#[test]
fn parse_remote_without_suffix_and_other_hosts() {
    assert_eq!(parse_github_remote_pub("https://github.com/owner/repo"), Some(("owner".into(), "repo".into())));
    assert_eq!(parse_github_remote_pub("https://gitlab.com/owner/repo.git"), None);
}

#[test]
fn fetch_open_threads_excludes_addressed_and_resolved() {
    let threads = vec![
        thread(1, ThreadState::Open, "open"),
        thread(2, ThreadState::Stale, "stale"),
        thread(3, ThreadState::Addressed, "addressed"),
        thread(4, ThreadState::Resolved, "resolved"),
    ];
    let open = fetch_open_threads(&threads);
    assert_eq!(open.len(), 2, "expected 2 open/stale threads, got: {}", open.len());
    assert!(open.iter().any(|t| t.id == 1), "should include Open thread");
    assert!(open.iter().any(|t| t.id == 2), "should include Stale thread");
    assert!(!open.iter().any(|t| t.id == 3), "should exclude Addressed thread");
    assert!(!open.iter().any(|t| t.id == 4), "should exclude Resolved thread");
}

#[test]
fn resolve_track_branch_uses_fetched_when_explicit_absent() {
    let result = resolve_track_branch(None, Some("feature/foo".to_string()), 99);
    assert_eq!(result.unwrap(), "feature/foo");
}

#[test]
fn resolve_track_branch_errors_with_corrective_message() {
    let err = resolve_track_branch(None, None, 99).unwrap_err();
    let msg = err.to_string();
    assert!(msg.contains("fp track 99 --branch"), "error should contain corrective command, got: {msg}");
}

#[test]
fn resolve_track_branch_prefers_explicit() {
    let result = resolve_track_branch(Some("explicit-branch".to_string()), Some("fetched-branch".to_string()), 99);
    assert_eq!(result.unwrap(), "explicit-branch");
}

#[test]
fn resolve_github_token_uses_gh_fallback() {
    let result = resolve_github_token_with(None, Some("gh-token-from-cli".to_string()));
    assert_eq!(result.unwrap(), "gh-token-from-cli");
}

#[test]
fn resolve_github_token_error_enumerates_options() {
    let err = resolve_github_token_with(None, None).unwrap_err();
    let msg = err.to_string();
    assert!(msg.contains("export GITHUB_TOKEN"), "error should mention export GITHUB_TOKEN, got: {msg}");
    assert!(msg.contains("gh auth login"), "error should mention gh auth login, got: {msg}");
}

#[test]
fn resolve_github_token_prefers_env_var() {
    let result = resolve_github_token_with(Some("env-token".to_string()), None);
    assert_eq!(result.unwrap(), "env-token");
}

#[test]
fn parse_gh_image_output_extracts_url() {
    let output = "![screenshot.gif](https://github.com/user-attachments/assets/abc-123)\n";
    let url = parse_gh_image_output(output).unwrap();
    assert_eq!(url, "https://github.com/user-attachments/assets/abc-123");
}

#[test]
fn parse_gh_image_output_errors_on_invalid() {
    let output = "some unexpected output";
    assert!(parse_gh_image_output(output).is_err(), "expected error on non-markdown output");
}

#[test]
fn parse_gh_image_output_error_quotes_output() {
    let err = parse_gh_image_output("nope").unwrap_err();
    assert!(err.contains("\"nope\""), "got: {}", err);
}

#[test]
fn inject_demo_section_appends_when_none_exists() {
    let body = "existing description";
    let urls = vec!["https://example.com/demo.gif".to_string()];
    let result = inject_demo_section(body, &urls);
    assert!(result.contains("## Demo"), "expected ## Demo section");
    assert!(result.contains("![Demo 1](https://example.com/demo.gif)"), "expected image markdown");
    assert!(result.starts_with("existing description"), "original body should be preserved");
}

#[test]
fn inject_demo_section_replaces_existing_demo_section() {
    let body = "description\n\n## Demo\n\n![Demo 1](old-url)\n";
    let urls = vec!["https://example.com/new.gif".to_string()];
    let result = inject_demo_section(body, &urls);
    assert!(!result.contains("old-url"), "old demo url should be replaced");
    assert!(result.contains("![Demo 1](https://example.com/new.gif)"), "new url should be present");
}

#[test]
fn inject_demo_section_numbers_multiple_demos() {
    let body = "description";
    let urls = vec!["https://example.com/a.gif".to_string(), "https://example.com/b.png".to_string()];
    let result = inject_demo_section(body, &urls);
    assert!(result.contains("![Demo 1](https://example.com/a.gif)"));
    assert!(result.contains("![Demo 2](https://example.com/b.png)"));
}

#[test]
fn inject_demo_section_twice_equals_once() {
    let urls1 = vec!["u1".to_string()];
    let urls2 = vec!["u2".to_string(), "u3".to_string()];
    let once = inject_demo_section("body text  ", &urls2);
    let twice = inject_demo_section(&inject_demo_section("body text  ", &urls1), &urls2);
    assert_eq!(once, twice);
    assert_eq!(once, "body text\n\n## Demo\n\n![Demo 1](u2)\n![Demo 2](u3)");
}

#[test]
fn extract_github_session_with_absent_db_errors_without_keychain() {
    let result = extract_github_session_from_browser_with_chrome_db("/nonexistent/path/Cookies");
    assert!(result.is_err(), "must return Err when Chrome DB path does not exist");
    let msg = result.unwrap_err().to_string();
    assert!(msg.contains("GITHUB_USER_SESSION") || msg.contains("Chrome"),
        "error must mention GITHUB_USER_SESSION or Chrome, got: {}", msg);
}

#[test]
fn parse_upload_token_extracts_token_from_html() {
    let html = r#"<html><head>"uploadToken":"tok123"</head></html>"#;
    let token = parse_upload_token(html).unwrap();
    assert_eq!(token, "tok123");
}

#[test]
fn parse_upload_token_errors_on_missing() {
    let html = "<html><body>no token here</body></html>";
    assert!(parse_upload_token(html).is_err());
}

#[test]
fn reply_routes_inline_and_conversation_threads() {
    let mut t = thread(7, ThreadState::Open, "x");
    t.author = "rev".into();
    match reply_to_thread(&t, "done") {
        ReplyRoute::PrComment { body } => assert_eq!(body, "@rev done"),
        _ => panic!("a thread without a file is answered in the conversation"),
    }
    t.file = Some("src/a.rs".into());
    match reply_to_thread(&t, "done") {
        ReplyRoute::CommentReply { comment_id, body } => {
            assert_eq!(comment_id, 7);
            assert_eq!(body, "done");
        }
        _ => panic!("an inline thread is answered in place"),
    }
}

/// Resolves the merge method as the command line does: GitHub is asked only
/// when nothing is remembered.
fn resolve(cache: &mut Vec<(String, String)>, owner: &str, repo: &str, fetch: &mut dyn FnMut() -> Result<String, String>)
    -> Result<String, String>
{
    if let Some(m) = cached_merge_method(cache, owner, repo) {
        return Ok(m);
    }
    let m = fetch()?;
    remember_merge_method(cache, owner, repo, &m);
    Ok(m)
}

#[test]
fn resolve_merge_method_uses_cache_on_second_call() {
    let mut cache: Vec<(String, String)> = Vec::new();
    let mut requests = 0;
    let mut fetch = || { requests += 1; Ok("squash".to_string()) };
    assert_eq!(resolve(&mut cache, "owner", "repo", &mut fetch).unwrap(), "squash");
    assert_eq!(resolve(&mut cache, "owner", "repo", &mut || panic!("a remembered method must not be asked for")).unwrap(), "squash");
    assert_eq!(requests, 1, "GitHub must be asked exactly once");
    assert_eq!(cache.len(), 1);
}

#[test]
fn merge_methods_are_remembered_per_repository() {
    let mut cache: Vec<(String, String)> = Vec::new();
    assert_eq!(cached_merge_method(&cache, "o", "a"), None);
    remember_merge_method(&mut cache, "o", "a", "rebase");
    assert_eq!(cached_merge_method(&cache, "o", "a"), Some("rebase".to_string()));
    assert_eq!(cached_merge_method(&cache, "o", "b"), None);
    assert_eq!(cache, vec![("o/a".to_string(), "rebase".to_string())]);
}

#[test]
fn created_pr_takes_the_reply_fields() {
    let pull = PullJson {
        title: Some("T".into()), head_ref: Some("feat/x".into()), head_sha: Some("abc".into()), base_ref: None,
        draft: Some(true), merged: None, mergeable: None, author: None, body: None, node_id: None,
    };
    let pr = GithubClient::create_pr_with_body(Some(12), &pull);
    assert_eq!((pr.number, pr.title.as_str(), pr.branch.as_str(), pr.base.as_str(), pr.head_sha.as_str(), pr.draft),
        (12, "T", "feat/x", "", "", true));
    assert!(pr.checks.is_empty() && pr.threads.is_empty() && !pr.approved && !pr.has_merge_conflict);
    assert_eq!(GithubClient::create_pr_with_body(None, &pull).number, 0);
}

#[test]
fn gh_image_error_quotes_the_output() {
    assert_eq!(parse_gh_image_output("a \"b\"\n").err().unwrap(),
        "could not parse URL from gh image output: \"a \\\"b\\\"\\n\"");
}

#[test]
fn reply_to_thread_prepends_mention_for_pr_level_thread() {
    let thread = Thread {
        id: 500, state: ThreadState::Open, author: "commenter".into(),
        body: "general comment".into(), replies: vec![],
        file: None, line: None,
    };
    let result = reply_to_thread(&thread, "acknowledged");
    assert!(matches!(&result, ReplyRoute::PrComment { body } if body == "@commenter acknowledged"),
        "expected a conversation comment with @mention");
}

#[test]
fn reply_to_thread_uses_pulls_api_for_inline_thread() {
    let thread = Thread {
        id: 999, state: ThreadState::Open, author: "rev".into(),
        body: "fix this".into(), replies: vec![],
        file: Some("src/main.rs".into()), line: Some(10),
    };
    let result = reply_to_thread(&thread, "done");
    assert!(matches!(&result, ReplyRoute::CommentReply { comment_id: 999, body } if body == "done"),
        "expected a reply to comment 999 for an inline thread");
}

#[test]
fn reply_to_thread_uses_issues_api_for_pr_level_thread() {
    let thread = Thread {
        id: 500, state: ThreadState::Open, author: "rev".into(),
        body: "general comment".into(), replies: vec![],
        file: None, line: None,
    };
    let result = reply_to_thread(&thread, "acknowledged");
    assert!(matches!(result, ReplyRoute::PrComment { .. }), "expected a conversation comment for a PR-level thread");
}
