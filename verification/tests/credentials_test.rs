use fp::credentials::{resolve_github_token_with, extract_github_session_from_browser_with_chrome_db};

#[test]
fn credentials_module_governs_resolve_github_token_with() {
    let result = resolve_github_token_with(Some("env-tok".to_string()), None);
    assert_eq!(result.unwrap(), "env-tok");
}

#[test]
fn credentials_module_governs_resolve_github_token_error() {
    let err = resolve_github_token_with(None, None).unwrap_err();
    assert!(err.to_string().contains("GITHUB_TOKEN"), "got: {}", err);
}

#[test]
fn empty_env_token_falls_back_to_gh() {
    assert_eq!(resolve_github_token_with(Some(String::new()), Some("gh".into())).unwrap(), "gh");
}

#[test]
fn browser_session_is_absent_off_macos() {
    let err = extract_github_session_from_browser_with_chrome_db("/nonexistent/Cookies").unwrap_err();
    assert!(err.contains("GITHUB_USER_SESSION"));
}
