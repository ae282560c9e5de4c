//! The pull-request model that the rest of the library reads and writes.
use vstd::prelude::*;

verus! {

#[derive(Debug, Clone, Copy, PartialEq, Eq, Structural)]
pub enum CheckStatus {
    Pass,
    Fail,
    Pending,
}

#[derive(Debug, Clone)]
pub struct Check {
    pub name: String,
    pub status: CheckStatus,
    pub required: bool,
    pub details_url: Option<String>,
    pub log_snippet: Option<String>,
}

#[derive(Debug, Clone, Copy, PartialEq, Eq, Structural)]
pub enum ThreadState {
    Open,
    Stale,
    Addressed,
    Resolved,
}

#[derive(Debug, Clone)]
pub struct Thread {
    pub id: u64,
    pub state: ThreadState,
    pub author: String,
    pub body: String,
    pub replies: Vec<(String, String)>,
    pub file: Option<String>,
    pub line: Option<u32>,
}

#[derive(Debug, Clone)]
pub struct PrState {
    pub number: u64,
    pub title: String,
    pub branch: String,
    pub base: String,
    pub head_sha: String,
    pub draft: bool,
    pub approved: bool,
    pub checks: Vec<Check>,
    pub threads: Vec<Thread>,
    pub has_merge_conflict: bool,
}

/// What is remembered locally of a tracked pull request.
#[derive(Debug, Clone)]
pub struct PrCache {
    pub number: u64,
    pub title: String,
    pub branch: String,
    pub base: String,
}

/// Text of an optional string, empty when absent (`as_deref().unwrap_or("")`).
pub open spec fn opt_text(o: Option<String>) -> Seq<char> {
    match o {
        Some(s) => s@,
        None => seq![],
    }
}

pub open spec fn opt_view(o: Option<String>) -> Option<Seq<char>> {
    match o {
        Some(s) => Some(s@),
        None => None,
    }
}

/// The text of `o`, or "" when it is absent.
pub fn text_or_empty(o: &Option<String>) -> (r: &str)
    ensures
        r@ == opt_text(*o),
{
    match o {
        Some(s) => s.as_str(),
        None => {
            proof {
                reveal_strlit("");
            }
            ""
        },
    }
}

/// A copy of an optional string.
pub fn clone_opt(o: &Option<String>) -> (r: Option<String>)
    ensures
        r == *o,
{
    match o {
        Some(s) => Some(s.clone()),
        None => None,
    }
}

} // verus!
