use fp::github::{resolved_threads, GraphqlThread, ResolvedThreadInfo};

fn parse_resolved_review_threads_from_graphql(json: &str) -> Vec<ResolvedThreadInfo> {
    fp::github::parse_resolved_review_threads_from_graphql(json).unwrap()
}

#[test]
fn parse_resolved_threads_returns_resolver() {
    let json = r#"{
        "data": { "repository": { "pullRequest": {
            "reviewThreads": { "nodes": [ {
                "id": "PRRT_abc", "isResolved": true, "resolvedBy": { "login": "alice" },
                "comments": { "nodes": [ { "createdAt": "2024-01-01T10:00:00Z", "body": "Fix this", "path": "src/main.rs", "line": 42 } ] }
            } ] },
            "commits": { "nodes": [] }
        } } }
    }"#;
    let threads = parse_resolved_review_threads_from_graphql(json);
    assert_eq!(threads.len(), 1, "expected 1 resolved thread");
    assert_eq!(threads[0].resolved_by.as_deref(), Some("alice"), "expected resolver alice");
    assert_eq!(threads[0].file.as_deref(), Some("src/main.rs"));
    assert_eq!(threads[0].line, Some(42));
    assert_eq!(threads[0].body, "Fix this");
}

#[test]
fn parse_resolved_threads_returns_resolved_at() {
    let json = r#"{
        "data": { "repository": { "pullRequest": {
            "reviewThreads": { "nodes": [ {
                "id": "PRRT_abc", "isResolved": true, "resolvedBy": { "login": "alice" },
                "comments": { "nodes": [ { "createdAt": "2024-01-01T10:00:00Z", "body": "Fix this", "path": null, "line": null } ] }
            } ] },
            "commits": { "nodes": [] }
        } } }
    }"#;
    let threads = parse_resolved_review_threads_from_graphql(json);
    assert_eq!(threads[0].created_at.as_deref(), Some("2024-01-01T10:00:00Z"), "expected created_at timestamp");
}

#[test]
fn parse_resolved_threads_returns_first_commit_after_opened() {
    let json = r#"{
        "data": { "repository": { "pullRequest": {
            "reviewThreads": { "nodes": [ {
                "id": "PRRT_abc", "isResolved": true, "resolvedBy": { "login": "alice" },
                "comments": { "nodes": [ { "createdAt": "2024-01-02T10:00:00Z", "body": "Fix this", "path": null, "line": null } ] }
            } ] },
            "commits": { "nodes": [
                { "commit": { "abbreviatedOid": "aaa1111", "committedDate": "2024-01-01T09:00:00Z", "messageHeadline": "before thread" } },
                { "commit": { "abbreviatedOid": "bbb2222", "committedDate": "2024-01-03T11:00:00Z", "messageHeadline": "after thread" } }
            ] }
        } } }
    }"#;
    let threads = parse_resolved_review_threads_from_graphql(json);
    assert_eq!(threads[0].first_commit_after_opened.as_deref(), Some("bbb2222 after thread"),
        "expected commit pushed after thread opened");
}

#[test]
fn parse_resolved_threads_excludes_open_threads() {
    let json = r#"{
        "data": { "repository": { "pullRequest": {
            "reviewThreads": { "nodes": [
                { "id": "PRRT_open", "isResolved": false, "resolvedBy": null,
                  "comments": { "nodes": [ { "createdAt": "2024-01-01T10:00:00Z", "body": "Still open", "path": null, "line": null } ] } },
                { "id": "PRRT_resolved", "isResolved": true, "resolvedBy": { "login": "bob" },
                  "comments": { "nodes": [ { "createdAt": "2024-01-01T10:00:00Z", "body": "Resolved", "path": null, "line": null } ] } }
            ] },
            "commits": { "nodes": [] }
        } } }
    }"#;
    let threads = parse_resolved_review_threads_from_graphql(json);
    assert_eq!(threads.len(), 1);
    assert_eq!(threads[0].body, "Resolved");
}

#[test]
fn empty_path_is_no_file() {
    let t = GraphqlThread {
        is_resolved: Some(true), resolved_by: None, created_at: None, body: None, path: Some(String::new()), line: None,
    };
    let r = resolved_threads(&[t], &[]);
    assert_eq!(r[0].file, None);
    assert_eq!(r[0].body, "");
    assert_eq!(r[0].first_commit_after_opened, None);
}

#[test]
fn graphql_reply_that_is_not_json_is_an_error() {
    assert!(fp::github::parse_resolved_review_threads_from_graphql("not json").is_err());
}

#[test]
fn graphql_reply_without_threads_has_none() {
    let threads = parse_resolved_review_threads_from_graphql(r#"{"data": {"repository": null}}"#);
    assert!(threads.is_empty());
}
