//! Where the GitHub credentials come from.
use vstd::prelude::*;
use crate::github::{nonempty, no_credentials_message, no_session_message};

verus! {

/// The token to use: the environment's when non-empty, else gh's when non-empty;
/// an error naming both remedies otherwise.
pub fn resolve_github_token_with(env_token: Option<String>, gh_token: Option<String>) -> (r: Result<String, String>)
    ensures
        nonempty(env_token) ==> r == Ok::<String, String>(env_token->0),
        !nonempty(env_token) && nonempty(gh_token) ==> r == Ok::<String, String>(gh_token->0),
        !nonempty(env_token) && !nonempty(gh_token) ==> r is Err && r->Err_0@ == no_credentials_message(),
{
    crate::github::resolve_github_token_with(env_token, gh_token)
}

/// The GitHub session of the browser. Chrome's cookie database is read on
/// macOS only; elsewhere there is no session to find.
pub fn extract_github_session_from_browser_with_chrome_db(chrome_db: &str) -> (r: Result<String, String>)
    ensures
        r is Err && r->Err_0@ == no_session_message(),
{
    crate::github::extract_github_session_from_browser_with_chrome_db(chrome_db)
}

} // verus!
