use fp::worktree::{require_repo, locked_subtree};

#[test]
fn worktree_governs_require_repo_errors_when_none() {
    let result = require_repo(None);
    assert!(result.is_err(), "worktree::require_repo(None) must return Err");
    assert!(result.unwrap_err().to_string().contains("no GitHub remote"), "error must mention 'no GitHub remote'");
}

#[test]
fn worktree_governs_require_repo_returns_pair_when_some() {
    let result = require_repo(Some(("alice".into(), "proj".into())));
    assert!(result.is_ok(), "worktree::require_repo(Some) must succeed");
    let (owner, repo) = result.unwrap();
    assert_eq!(owner, "alice");
    assert_eq!(repo, "proj");
}

#[test]
fn worktree_governs_locked_subtree_returns_transitive_descendants() {
    let locked = vec!["feat/a".to_string()];
    let parent_of = vec![
        ("feat/b".to_string(), Some("feat/a".to_string())),
        ("feat/c".to_string(), Some("feat/b".to_string())),
        ("feat/d".to_string(), Some("main".to_string())),
    ];
    let result = locked_subtree(&locked, &parent_of);
    assert!(result.contains(&"feat/b".to_string()), "b is child of locked a");
    assert!(result.contains(&"feat/c".to_string()), "c is grandchild of locked a");
    assert!(!result.contains(&"feat/d".to_string()), "d has unrelated parent");
    assert!(!result.contains(&"feat/a".to_string()), "locked branch itself not in subtree");
}

#[test]
fn worktree_governs_locked_subtree_empty_when_no_descendants() {
    let locked = vec!["feat/a".to_string()];
    let parent_of = vec![("feat/b".to_string(), Some("main".to_string()))];
    let result = locked_subtree(&locked, &parent_of);
    assert!(result.is_empty(), "no descendants when nothing chains from locked");
}

#[test]
fn locked_subtree_follows_chains_listed_out_of_order_and_stops_at_cycles() {
    let locked = vec!["a".to_string()];
    let parent_of = vec![
        ("d".to_string(), Some("c".to_string())),
        ("c".to_string(), Some("b".to_string())),
        ("b".to_string(), Some("a".to_string())),
        ("x".to_string(), Some("y".to_string())),
        ("y".to_string(), Some("x".to_string())),
        ("z".to_string(), None),
    ];
    let mut result = locked_subtree(&locked, &parent_of);
    result.sort();
    assert_eq!(result, vec!["b".to_string(), "c".to_string(), "d".to_string()]);
}
