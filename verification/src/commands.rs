//! What the `fp` commands decide and answer. The requests they make to GitHub,
//! to git and to the processes they start are made by the caller, which hands
//! the replies in.
use vstd::prelude::*;
use crate::model::{Check, CheckStatus, PrCache, PrState, Thread, ThreadState};
use crate::github::{ReplyRoute, reply_to_thread};
use crate::process::{
    ProcessState, ProcessRecord, DepRecord, record_of, envelope_of, in_envelope, members, member_count, dep_cfg,
    dep_keys_of, dep_slots,
};
use crate::feature::{
    FeatureInfo, PrHealthStatus, info_view, infos_view, described, running, feature_list, feature_list_running,
    feature_new, feature_add_dep, feature_add, any_running, joined, feature_status, member_statuses, is_member_status, member_status, sorted_by_pr,
};
use crate::keyed::lemma_filter_take;
use crate::tracking::{TrackedPrs, numbers_without, cache_without};
use crate::github::{ref_models, is_open_state};
use crate::display::spec_open_threads;
use crate::pr_state::{ThreadModel, thread_models};
use crate::app_config::{AppConfig, AppConfigStore};
use crate::text::{
    push_str, push_u64, dec, copy_str, str_eq, sviews, chars_of, matches_at, vec_of_range, parse_u64,
    parse_unsigned, match_at, join, push_joined_strings, trim_end, trimmed_end, idx_of, lemma_idx_of_facts,
    find_char, string_of_range, replace_all, lowercase, to_lowercase, str_contains, contains_sub,
};

verus! {

/// The `fps` function for fish: switch to a pull request's worktree with
/// `fp switch`, which prints its path, and change into it.
pub open spec fn fps_fish() -> Seq<char> {
    "function fps\n    set -l dir (fp switch $argv)\n    and cd $dir\nend\n"@
}

/// The `fps` function for zsh and bash.
pub open spec fn fps_posix() -> Seq<char> {
    "fps() {\n    local dir\n    dir=\"$(fp switch \"$@\")\" && cd \"$dir\"\n}\n"@
}

/// The `fps` shell function that `fp install-shell` prints for `shell`: fish,
/// zsh and bash are supported, any other shell is refused.
pub fn install_shell_content(shell: &str) -> (r: Result<String, String>)
    ensures
        shell@ == "fish"@ ==> (r matches Ok(t) && t@ == fps_fish()),
        (shell@ == "zsh"@ || shell@ == "bash"@) ==> (r matches Ok(t) && t@ == fps_posix()),
        shell@ != "fish"@ && shell@ != "zsh"@ && shell@ != "bash"@ ==> (r matches Err(e)
            && e@ == "unsupported shell: "@ + shell@ + ". Supported: fish, zsh, bash"@),
{
    proof {
        reveal_strlit("fish");
        reveal_strlit("zsh");
        reveal_strlit("bash");
        assert("fish"@[0] != "zsh"@[0] && "fish"@[0] != "bash"@[0]);
    }
    if str_eq(shell, "fish") {
        Ok(String::from_str("function fps\n    set -l dir (fp switch $argv)\n    and cd $dir\nend\n"))
    } else if str_eq(shell, "zsh") || str_eq(shell, "bash") {
        Ok(String::from_str("fps() {\n    local dir\n    dir=\"$(fp switch \"$@\")\" && cd \"$dir\"\n}\n"))
    } else {
        let mut e = String::from_str("unsupported shell: ");
        push_str(&mut e, shell);
        push_str(&mut e, ". Supported: fish, zsh, bash");
        Err(e)
    }
}

pub fn unlock_message(branch: &str) -> (r: String)
    ensures
        r@ == "Unlocked branch '"@ + branch@ + "'"@,
{
    let mut out = String::from_str("Unlocked branch '");
    push_str(&mut out, branch);
    push_str(&mut out, "'");
    out
}

pub open spec fn agent_context_head() -> Seq<char> {
    "fp agent-context — run with --json for machine-readable output\nauth: GITHUB_TOKEN or gh auth login\ncommands: ls, status, track, untrack, watch, reply, context, threads, create, rebase-stack\ntracked PRs: "@
}

/// The short orientation text `fp agent-context` prints.
pub fn agent_context_text(pr_count: usize) -> (r: String)
    ensures
        r@ == agent_context_head() + dec(pr_count as nat),
{
    let mut out = String::from_str("fp agent-context — run with --json for machine-readable output\nauth: GITHUB_TOKEN or gh auth login\ncommands: ls, status, track, untrack, watch, reply, context, threads, create, rebase-stack\ntracked PRs: ");
    push_u64(&mut out, pr_count as u64);
    out
}

// ---------------------------------------------------------------------------
// Checks

pub open spec fn status_symbol(s: CheckStatus) -> Seq<char> {
    match s {
        CheckStatus::Pass => "✓"@,
        CheckStatus::Fail => "✗"@,
        CheckStatus::Pending => "⏳"@,
    }
}

pub open spec fn url_or_none(o: Option<String>) -> Seq<char> {
    match o {
        Some(u) => u@,
        None => "(no url)"@,
    }
}

pub open spec fn check_line(c: Check) -> Seq<char> {
    status_symbol(c.status) + " "@ + c.name@ + " — "@ + url_or_none(c.details_url) + "\n"@
}

pub open spec fn check_lines(cs: Seq<Check>) -> Seq<char>
    decreases cs.len(),
{
    if cs.len() == 0 {
        seq![]
    } else {
        check_lines(cs.drop_last()) + check_line(cs.last())
    }
}

pub open spec fn spec_cmd_checks(cs: Seq<Check>, sha: Seq<char>) -> Seq<char> {
    if cs.len() == 0 {
        "No check runs found for "@ + sha
    } else {
        check_lines(cs)
    }
}

fn status_symbol_text(s: CheckStatus) -> (r: &'static str)
    ensures
        r@ == status_symbol(s),
{
    match s {
        CheckStatus::Pass => "✓",
        CheckStatus::Fail => "✗",
        CheckStatus::Pending => "⏳",
    }
}

/// One line per check run of commit `sha`: its status, name and link.
pub fn cmd_checks(checks: &[Check], sha: &str) -> (r: String)
    ensures
        r@ == spec_cmd_checks(checks@, sha@),
{
    if checks.len() == 0 {
        let mut out = String::from_str("No check runs found for ");
        push_str(&mut out, sha);
        return out;
    }
    let mut out = String::new();
    let mut i: usize = 0;
    assert(checks@.take(0) =~= Seq::<Check>::empty());
    while i < checks.len()
        invariant
            i <= checks@.len(),
            out@ == check_lines(checks@.take(i as int)),
        decreases checks@.len() - i,
    {
        let c = &checks[i];
        push_str(&mut out, status_symbol_text(c.status));
        push_str(&mut out, " ");
        push_str(&mut out, c.name.as_str());
        push_str(&mut out, " — ");
        match &c.details_url {
            Some(u) => push_str(&mut out, u.as_str()),
            None => push_str(&mut out, "(no url)"),
        }
        push_str(&mut out, "\n");
        let ghost next = checks@.take(i + 1);
        assert(next.drop_last() =~= checks@.take(i as int));
        assert(next.last() == checks@[i as int]);
        i += 1;
    }
    assert(checks@.take(checks@.len() as int) =~= checks@);
    out
}

// ---------------------------------------------------------------------------
// Replies, comments, readiness, edits

pub open spec fn thread_missing_message(thread_id: u64, pr: u64) -> Seq<char> {
    "thread #"@ + dec(thread_id as nat) + " not found on PR #"@ + dec(pr as nat)
}

/// The position of the first thread of `ts` with id `id`, or -1.
pub open spec fn thread_index(ts: Seq<Thread>, id: u64) -> int
    decreases ts.len(),
{
    if ts.len() == 0 {
        -1
    } else if thread_index(ts.drop_last(), id) != -1 {
        thread_index(ts.drop_last(), id)
    } else if ts.last().id == id {
        ts.len() - 1
    } else {
        -1
    }
}

pub proof fn lemma_thread_index(ts: Seq<Thread>, id: u64)
    ensures
        -1 <= thread_index(ts, id) < ts.len(),
        thread_index(ts, id) != -1 ==> ts[thread_index(ts, id)].id == id,
        forall|j: int| 0 <= j < ts.len() && (j < thread_index(ts, id) || thread_index(ts, id) == -1)
            ==> (#[trigger] ts[j]).id != id,
    decreases ts.len(),
{
    if ts.len() > 0 {
        lemma_thread_index(ts.drop_last(), id);
        assert forall|j: int| 0 <= j < ts.len() - 1 implies ts.drop_last()[j] == ts[j] by {}
    }
}

/// The first thread of `ts` with id `id`.
pub fn find_thread(ts: &Vec<Thread>, id: u64) -> (r: Option<usize>)
    ensures
        match r {
            Some(i) => i < ts@.len() && i as int == thread_index(ts@, id),
            None => thread_index(ts@, id) == -1,
        },
{
    proof { lemma_thread_index(ts@, id); }
    let mut i: usize = 0;
    while i < ts.len()
        invariant
            i <= ts@.len(),
            forall|j: int| 0 <= j < i ==> (#[trigger] ts@[j]).id != id,
            -1 <= thread_index(ts@, id) < ts@.len(),
            thread_index(ts@, id) != -1 ==> ts@[thread_index(ts@, id)].id == id,
            forall|j: int| 0 <= j < ts@.len() && (j < thread_index(ts@, id) || thread_index(ts@, id) == -1)
                ==> (#[trigger] ts@[j]).id != id,
        decreases ts@.len() - i,
    {
        if ts[i].id == id {
            return Some(i);
        }
        i += 1;
    }
    None
}

/// Where a reply of `message` to thread `thread_id` of pull request `pr` goes;
/// an error when the pull request has no such thread.
pub fn cmd_reply(pr_state: &PrState, pr: u64, thread_id: u64, message: &str) -> (r: Result<ReplyRoute, String>)
    ensures
        thread_index(pr_state.threads@, thread_id) == -1 <==> r is Err,
        r matches Err(e) ==> e@ == thread_missing_message(thread_id, pr),
        r matches Ok(route) ==> {
            let t = pr_state.threads@[thread_index(pr_state.threads@, thread_id)];
            &&& t.file is Some ==> (route matches ReplyRoute::CommentReply { comment_id, body: b }
                && comment_id == t.id && b@ == message@)
            &&& t.file is None ==> (route matches ReplyRoute::PrComment { body: b }
                && b@ == "@"@ + t.author@ + " "@ + message@)
        },
{
    match find_thread(&pr_state.threads, thread_id) {
        Some(i) => Ok(reply_to_thread(&pr_state.threads[i], message)),
        None => {
            let mut e = String::from_str("thread #");
            push_u64(&mut e, thread_id);
            push_str(&mut e, " not found on PR #");
            push_u64(&mut e, pr);
            Err(e)
        },
    }
}

/// The confirmation of a posted reply.
pub fn reply_confirmation(thread_id: u64, posted: &str) -> (r: String)
    ensures
        r@ == "Replied to thread #"@ + dec(thread_id as nat) + ": "@ + posted@,
{
    let mut out = String::from_str("Replied to thread #");
    push_u64(&mut out, thread_id);
    push_str(&mut out, ": ");
    push_str(&mut out, posted);
    out
}

pub fn cmd_ready(pr: u64) -> (r: String)
    ensures
        r@ == "PR #"@ + dec(pr as nat) + " marked as ready for review."@,
{
    let mut out = String::from_str("PR #");
    push_u64(&mut out, pr);
    push_str(&mut out, " marked as ready for review.");
    out
}

pub fn cmd_comment(url: &str) -> (r: String)
    ensures
        r@ == "Comment posted: "@ + url@,
{
    let mut out = String::from_str("Comment posted: ");
    push_str(&mut out, url);
    out
}

pub fn cmd_edit(pr: u64) -> (r: String)
    ensures
        r@ == "✓ PR #"@ + dec(pr as nat) + " updated"@,
{
    let mut out = String::from_str("✓ PR #");
    push_u64(&mut out, pr);
    push_str(&mut out, " updated");
    out
}

/// Stop tracking `pr` and forget its details (removing its worktree is the
/// caller's work).
pub fn cmd_untrack(store: &mut TrackedPrs, pr: u64) -> (r: String)
    ensures
        r@ == "Untracked PR #"@ + dec(pr as nat),
        final(store).numbers_view() == numbers_without(old(store).numbers_view(), pr),
        final(store).cache_view() == cache_without(old(store).cache_view(), pr),
        !final(store).is_tracked(pr),
{
    store.untrack(pr);
    let mut out = String::from_str("Untracked PR #");
    push_u64(&mut out, pr);
    out
}

// ---------------------------------------------------------------------------
// Tracking

pub open spec fn merged_message(pr: u64) -> Seq<char> {
    "PR #"@ + dec(pr as nat) + " is already merged and cannot be tracked"@
}

pub open spec fn opt_pair_first(o: Option<(String, String)>) -> Seq<char> {
    match o {
        Some(p) => p.0@,
        None => seq![],
    }
}

pub open spec fn opt_pair_second(o: Option<(String, String)>) -> Seq<char> {
    match o {
        Some(p) => p.1@,
        None => seq![],
    }
}

/// The title, branch and base to track pull request `pr` under, from what GitHub
/// answered (`None` where a request failed): an error when it is merged; the
/// given title before the fetched one, and `PR #{pr}` when neither says more.
pub fn cmd_track(merged: Option<bool>, metadata: Option<(String, String)>, base: Option<String>, pr: u64,
    title: Option<String>) -> (r: Result<(String, String, String), String>)
    ensures
        merged == Some(true) <==> r is Err,
        r matches Err(e) ==> e@ == merged_message(pr),
        r matches Ok(t) ==> {
            &&& t.0@ == match title {
                Some(x) => x@,
                None => if opt_pair_first(metadata).len() == 0 { "PR #"@ + dec(pr as nat) } else { opt_pair_first(metadata) },
            }
            &&& t.1@ == opt_pair_second(metadata)
            &&& t.2@ == crate::model::opt_text(base)
        },
{
    if merged == Some(true) {
        let mut e = String::from_str("PR #");
        push_u64(&mut e, pr);
        push_str(&mut e, " is already merged and cannot be tracked");
        return Err(e);
    }
    let (fetched_title, fetched_branch) = match metadata {
        Some(p) => p,
        None => (String::new(), String::new()),
    };
    let b = match base {
        Some(x) => x,
        None => String::new(),
    };
    let t = match title {
        Some(x) => x,
        None => if fetched_title.as_str().is_empty() {
            let mut d = String::from_str("PR #");
            push_u64(&mut d, pr);
            d
        } else {
            fetched_title
        },
    };
    Ok((t, fetched_branch, b))
}

// ---------------------------------------------------------------------------
// Context

pub open spec fn thread_state_text(s: ThreadState) -> Seq<char> {
    match s {
        ThreadState::Open => "Open"@,
        ThreadState::Stale => "Stale"@,
        ThreadState::Addressed => "Addressed"@,
        ThreadState::Resolved => "Resolved"@,
    }
}

fn thread_state_name(s: ThreadState) -> (r: &'static str)
    ensures
        r@ == thread_state_text(s),
{
    match s {
        ThreadState::Open => "Open",
        ThreadState::Stale => "Stale",
        ThreadState::Addressed => "Addressed",
        ThreadState::Resolved => "Resolved",
    }
}

pub open spec fn reply_lines(rs: Seq<(String, String)>) -> Seq<char>
    decreases rs.len(),
{
    if rs.len() == 0 {
        seq![]
    } else {
        reply_lines(rs.drop_last()) + "  > @"@ + rs.last().0@ + ": "@ + rs.last().1@ + "\n"@
    }
}

pub open spec fn location_line(file: Option<String>, line: Option<u32>) -> Seq<char> {
    match (file, line) {
        (Some(f), Some(l)) => "  "@ + f@ + ":"@ + dec(l as nat) + "\n"@,
        _ => seq![],
    }
}

/// A thread as `fp context` shows it.
pub open spec fn thread_detail(t: Thread) -> Seq<char> {
    "Thread #"@ + dec(t.id as nat) + " ("@ + thread_state_text(t.state) + ")\n"@
        + location_line(t.file, t.line)
        + "  @"@ + t.author@ + ": "@ + t.body@ + "\n"@
        + reply_lines(t.replies@)
}

fn push_thread_head(out: &mut String, t: &Thread)
    ensures
        final(out)@ == old(out)@ + "Thread #"@ + dec(t.id as nat) + " ("@ + thread_state_text(t.state) + ")\n"@
            + location_line(t.file, t.line),
{
    push_str(out, "Thread #");
    push_u64(out, t.id);
    push_str(out, " (");
    push_str(out, thread_state_name(t.state));
    push_str(out, ")\n");
    match (&t.file, t.line) {
        (Some(f), Some(l)) => {
            push_str(out, "  ");
            push_str(out, f.as_str());
            push_str(out, ":");
            push_u64(out, l as u64);
            push_str(out, "\n");
        },
        _ => {},
    }
}

fn push_thread_detail(out: &mut String, t: &Thread)
    ensures
        final(out)@ == old(out)@ + thread_detail(*t),
{
    let ghost o0 = out@;
    push_thread_head(out, t);
    push_str(out, "  @");
    push_str(out, t.author.as_str());
    push_str(out, ": ");
    push_str(out, t.body.as_str());
    push_str(out, "\n");
    let ghost o1 = out@;
    assert(o1 =~= o0 + ("Thread #"@ + dec(t.id as nat) + " ("@ + thread_state_text(t.state) + ")\n"@
        + location_line(t.file, t.line) + "  @"@ + t.author@ + ": "@ + t.body@ + "\n"@));
    let mut i: usize = 0;
    assert(t.replies@.take(0) =~= Seq::<(String, String)>::empty());
    while i < t.replies.len()
        invariant
            i <= t.replies@.len(),
            out@ == o1 + reply_lines(t.replies@.take(i as int)),
        decreases t.replies@.len() - i,
    {
        push_str(out, "  > @");
        push_str(out, t.replies[i].0.as_str());
        push_str(out, ": ");
        push_str(out, t.replies[i].1.as_str());
        push_str(out, "\n");
        let ghost next = t.replies@.take(i + 1);
        assert(next.drop_last() =~= t.replies@.take(i as int));
        assert(next.last() == t.replies@[i as int]);
        i += 1;
    }
    assert(t.replies@.take(t.replies@.len() as int) =~= t.replies@);
}

/// What `fp context` answers: text, or the check it names for the caller to
/// describe.
pub enum ContextReply {
    Text(String),
    Check(usize),
}

/// The position of the first check of `cs` named `name`, or -1.
pub open spec fn check_index(cs: Seq<Check>, name: Seq<char>) -> int
    decreases cs.len(),
{
    if cs.len() == 0 {
        -1
    } else if check_index(cs.drop_last(), name) != -1 {
        check_index(cs.drop_last(), name)
    } else if cs.last().name@ == name {
        cs.len() - 1
    } else {
        -1
    }
}

pub proof fn lemma_check_index(cs: Seq<Check>, name: Seq<char>)
    ensures
        -1 <= check_index(cs, name) < cs.len(),
        check_index(cs, name) != -1 ==> cs[check_index(cs, name)].name@ == name,
        forall|j: int| 0 <= j < cs.len() && (j < check_index(cs, name) || check_index(cs, name) == -1)
            ==> (#[trigger] cs[j]).name@ != name,
    decreases cs.len(),
{
    if cs.len() > 0 {
        lemma_check_index(cs.drop_last(), name);
        assert forall|j: int| 0 <= j < cs.len() - 1 implies cs.drop_last()[j] == cs[j] by {}
    }
}

fn find_check(cs: &Vec<Check>, name: &str) -> (r: Option<usize>)
    ensures
        match r {
            Some(i) => i < cs@.len() && i as int == check_index(cs@, name@),
            None => check_index(cs@, name@) == -1,
        },
{
    proof { lemma_check_index(cs@, name@); }
    let mut i: usize = 0;
    while i < cs.len()
        invariant
            i <= cs@.len(),
            forall|j: int| 0 <= j < i ==> (#[trigger] cs@[j]).name@ != name@,
            -1 <= check_index(cs@, name@) < cs@.len(),
            check_index(cs@, name@) != -1 ==> cs@[check_index(cs@, name@)].name@ == name@,
            forall|j: int| 0 <= j < cs@.len() && (j < check_index(cs@, name@) || check_index(cs@, name@) == -1)
                ==> (#[trigger] cs@[j]).name@ != name@,
        decreases cs@.len() - i,
    {
        if str_eq(cs[i].name.as_str(), name) {
            return Some(i);
        }
        i += 1;
    }
    None
}

pub open spec fn thread_prefix() -> Seq<char> {
    "thread:"@
}

/// The answer of `fp context` for `hint` on pull request `pr`: `thread:{id}`
/// names a thread, anything else a check.
pub fn cmd_context(pr_state: &PrState, pr: u64, hint: &str) -> (r: Result<ContextReply, String>)
    ensures
        match_at(hint@, 0, thread_prefix()) ==> {
            let rest = hint@.subrange(7, hint@.len() as int);
            match parse_unsigned(rest, u64::MAX as nat) {
                None => r matches Err(e) && e@ == "invalid thread id"@,
                Some(id) => {
                    let k = thread_index(pr_state.threads@, id as u64);
                    r matches Ok(ContextReply::Text(s)) && s@ == if k == -1 {
                        "Thread #"@ + dec(id) + " not found in PR #"@ + dec(pr as nat) + "\n"@
                    } else {
                        thread_detail(pr_state.threads@[k])
                    }
                },
            }
        },
        !match_at(hint@, 0, thread_prefix()) ==> {
            let k = check_index(pr_state.checks@, hint@);
            if k == -1 {
                r matches Ok(ContextReply::Text(s))
                    && s@ == "Check '"@ + hint@ + "' not found in PR #"@ + dec(pr as nat) + "\n"@
            } else {
                r matches Ok(ContextReply::Check(i)) && i == k
            }
        },
{
    proof { reveal_strlit("thread:"); }
    let hv = chars_of(hint);
    let pv = chars_of("thread:");
    if matches_at(&hv, 0, &pv) {
        let n = hv.len();
        let rest = vec_of_range(&hv, 7, n);
        match parse_u64(&rest) {
            None => Err(String::from_str("invalid thread id")),
            Some(id) => {
                match find_thread(&pr_state.threads, id) {
                    Some(i) => {
                        let mut out = String::new();
                        push_thread_detail(&mut out, &pr_state.threads[i]);
                        Ok(ContextReply::Text(out))
                    },
                    None => {
                        let mut out = String::from_str("Thread #");
                        push_u64(&mut out, id);
                        push_str(&mut out, " not found in PR #");
                        push_u64(&mut out, pr);
                        push_str(&mut out, "\n");
                        Ok(ContextReply::Text(out))
                    },
                }
            },
        }
    } else {
        match find_check(&pr_state.checks, hint) {
            Some(i) => Ok(ContextReply::Check(i)),
            None => {
                let mut out = String::from_str("Check '");
                push_str(&mut out, hint);
                push_str(&mut out, "' not found in PR #");
                push_u64(&mut out, pr);
                push_str(&mut out, "\n");
                Ok(ContextReply::Text(out))
            },
        }
    }
}

// ---------------------------------------------------------------------------
// Stack bases

pub open spec fn normalized_base(base: Seq<char>, known: Seq<Seq<char>>) -> Seq<char> {
    if known.contains(base) { base } else { "main"@ }
}

/// Normalising a base twice gives what normalising it once gives.
pub proof fn law_normalized_base_idempotent(base: Seq<char>, known: Seq<Seq<char>>)
    ensures
        normalized_base(normalized_base(base, known), known) == normalized_base(base, known),
{
}

/// Each branch's base, with a base that is not a tracked branch replaced by `main`.
pub fn normalize_base_of(base_of: Vec<(String, String)>, tracked_branches: &Vec<String>) -> (r: Vec<(String, String)>)
    ensures
        r@.len() == base_of@.len(),
        forall|i: int| 0 <= i < r@.len() ==> (#[trigger] r@[i]).0@ == base_of@[i].0@
            && r@[i].1@ == normalized_base(base_of@[i].1@, sviews(tracked_branches@)),
{
    let mut r: Vec<(String, String)> = Vec::new();
    let mut i: usize = 0;
    while i < base_of.len()
        invariant
            i <= base_of@.len(),
            r@.len() == i,
            forall|j: int| 0 <= j < i ==> (#[trigger] r@[j]).0@ == base_of@[j].0@
                && r@[j].1@ == normalized_base(base_of@[j].1@, sviews(tracked_branches@)),
        decreases base_of@.len() - i,
    {
        let keep = crate::feature::has_string(tracked_branches, base_of[i].1.as_str());
        let b = if keep { copy_str(base_of[i].1.as_str()) } else { String::from_str("main") };
        proof { reveal_strlit("main"); }
        r.push((copy_str(base_of[i].0.as_str()), b));
        i += 1;
    }
    r
}

/// Give the pull requests based on `merged_branch` the base `new_base`.
pub fn update_children_base(caches: &mut Vec<PrCache>, merged_branch: &str, new_base: &str)
    ensures
        final(caches)@.len() == old(caches)@.len(),
        forall|i: int| 0 <= i < final(caches)@.len() ==> {
            let o = #[trigger] old(caches)@[i];
            let n = final(caches)@[i];
            &&& n.number == o.number
            &&& n.title@ == o.title@
            &&& n.branch@ == o.branch@
            &&& n.base@ == if o.base@ == merged_branch@ { new_base@ } else { o.base@ }
        },
{
    let ghost c0 = caches@;
    let mut i: usize = 0;
    while i < caches.len()
        invariant
            i <= caches@.len(),
            caches@.len() == c0.len(),
            forall|j: int| i <= j < c0.len() ==> caches@[j] == c0[j],
            forall|j: int| 0 <= j < i ==> {
                let o = #[trigger] c0[j];
                let n = caches@[j];
                &&& n.number == o.number
                &&& n.title@ == o.title@
                &&& n.branch@ == o.branch@
                &&& n.base@ == if o.base@ == merged_branch@ { new_base@ } else { o.base@ }
            },
        decreases caches@.len() - i,
    {
        if str_eq(caches[i].base.as_str(), merged_branch) {
            let n = PrCache {
                number: caches[i].number,
                title: copy_str(caches[i].title.as_str()),
                branch: copy_str(caches[i].branch.as_str()),
                base: copy_str(new_base),
            };
            caches.set(i, n);
        }
        i += 1;
    }
}

// ---------------------------------------------------------------------------
// Feature envelopes

/// `#a, #b, ...`
pub open spec fn pr_list(ps: Seq<u64>) -> Seq<char>
    decreases ps.len(),
{
    if ps.len() == 0 {
        seq![]
    } else if ps.len() == 1 {
        "#"@ + dec(ps[0] as nat)
    } else {
        pr_list(ps.drop_last()) + ", #"@ + dec(ps.last() as nat)
    }
}

pub open spec fn info_line(f: (Seq<char>, Seq<u64>)) -> Seq<char> {
    "  "@ + f.0 + " ("@ + dec(f.1.len()) + " PR(s)): "@ + pr_list(f.1) + "\n"@
}

pub open spec fn info_lines(fs: Seq<(Seq<char>, Seq<u64>)>) -> Seq<char>
    decreases fs.len(),
{
    if fs.len() == 0 {
        seq![]
    } else {
        info_lines(fs.drop_last()) + info_line(fs.last())
    }
}

/// An envelope listing: `empty` when there is none, else a line per envelope.
pub open spec fn listing(fs: Seq<(Seq<char>, Seq<u64>)>, empty: Seq<char>) -> Seq<char> {
    if fs.len() == 0 { empty } else { trim_end(info_lines(fs)) }
}

fn push_pr_list(out: &mut String, prs: &Vec<u64>)
    ensures
        final(out)@ == old(out)@ + pr_list(prs@),
{
    let ghost o0 = out@;
    let mut i: usize = 0;
    assert(prs@.take(0) =~= Seq::<u64>::empty());
    while i < prs.len()
        invariant
            i <= prs@.len(),
            out@ == o0 + pr_list(prs@.take(i as int)),
        decreases prs@.len() - i,
    {
        let ghost next = prs@.take(i + 1);
        assert(next.drop_last() =~= prs@.take(i as int));
        assert(next.last() == prs@[i as int]);
        if i > 0 {
            push_str(out, ", #");
        } else {
            push_str(out, "#");
            assert(next[0] == prs@[0]);
        }
        push_u64(out, prs[i]);
        assert(out@ =~= o0 + pr_list(next));
        i += 1;
    }
    assert(prs@.take(prs@.len() as int) =~= prs@);
}

fn format_infos(infos: &Vec<FeatureInfo>, empty: &str) -> (r: String)
    ensures
        r@ == listing(infos_view(infos@), empty@),
{
    if infos.len() == 0 {
        return copy_str(empty);
    }
    let mut out = String::new();
    let mut i: usize = 0;
    assert(infos_view(infos@).take(0) =~= Seq::<(Seq<char>, Seq<u64>)>::empty());
    while i < infos.len()
        invariant
            i <= infos@.len(),
            out@ == info_lines(infos_view(infos@).take(i as int)),
        decreases infos@.len() - i,
    {
        let f = &infos[i];
        push_str(&mut out, "  ");
        push_str(&mut out, f.name.as_str());
        push_str(&mut out, " (");
        push_u64(&mut out, f.prs.len() as u64);
        push_str(&mut out, " PR(s)): ");
        push_pr_list(&mut out, &f.prs);
        push_str(&mut out, "\n");
        let ghost next = infos_view(infos@).take(i + 1);
        assert(next.drop_last() =~= infos_view(infos@).take(i as int));
        assert(next.last() == info_view(infos@[i as int]));
        i += 1;
    }
    assert(infos_view(infos@).take(infos@.len() as int) =~= infos_view(infos@));
    trimmed_end(out.as_str())
}

/// Every envelope with its members, one per line.
pub fn cmd_feature_list(state: &ProcessState) -> (r: String)
    ensures
        r@ == listing(state.envelopes().map_values(|n: Seq<char>| described(state.records_view(), n)),
            "No feature envelopes."@),
{
    let list = feature_list(state);
    format_infos(&list, "No feature envelopes.")
}

/// The envelopes with a live member (its pid among `live`), one per line.
pub fn cmd_feature_list_running(state: &ProcessState, live: &[u32]) -> (r: String)
    ensures
        r@ == listing(state.envelopes().filter(|n: Seq<char>| running(state.records_view(), n, live@))
            .map_values(|n: Seq<char>| described(state.records_view(), n)), "No running feature envelopes."@),
{
    let list = feature_list_running(state, live);
    format_infos(&list, "No running feature envelopes.")
}

pub fn cmd_feature_new(state: &mut ProcessState, name: &str) -> (r: String)
    ensures
        r@ == "Created feature envelope '"@ + name@ + "'"@,
        final(state).has_envelope(name@),
        forall|n: Seq<char>| n != name@ ==> final(state).has_envelope(n) == old(state).has_envelope(n),
        final(state).records_view() == old(state).records_view(),
        forall|k: Seq<char>| final(state).dep_record(k) == old(state).dep_record(k),
        final(state).dep_entries() == old(state).dep_entries(),
        forall|k: Seq<char>| final(state).deps_of(k) == old(state).deps_of(k),
        forall|k: Seq<char>| final(state).test_config(k) == old(state).test_config(k),
{
    feature_new(state, name);
    let mut out = String::from_str("Created feature envelope '");
    push_str(&mut out, name);
    push_str(&mut out, "'");
    out
}

pub fn cmd_feature_add_dep(state: &mut ProcessState, name: &str, app_config: &str) -> (r: String)
    ensures
        r@ == "Added dep '"@ + app_config@ + "' to feature '"@ + name@ + "'"@,
        final(state).has_envelope(name@),
        final(state).deps_of(name@) == Some(match old(state).deps_of(name@) {
            Some(d) => d,
            None => Seq::<Seq<char>>::empty(),
        }.push(app_config@)),
        forall|k: Seq<char>| k != name@ ==> final(state).deps_of(k) == old(state).deps_of(k),
        final(state).records_view() == old(state).records_view(),
{
    feature_add_dep(state, name, app_config);
    let mut out = String::from_str("Added dep '");
    push_str(&mut out, app_config);
    push_str(&mut out, "' to feature '");
    push_str(&mut out, name);
    push_str(&mut out, "'");
    out
}

/// Make `pr` a member of `name`; a new record starts on `branch` in `worktree`.
pub fn cmd_feature_add(state: &mut ProcessState, name: &str, pr: u64, configs: &[String], branch: &str,
    worktree: &str) -> (r: String)
    ensures
        r@ == "Added PR #"@ + dec(pr as nat) + " to feature '"@ + name@ + "'"@,
        final(state).has_envelope(name@),
        exists|i: int| 0 <= i < final(state).records_view().len()
            && joined(record_of(old(state).records_view(), pr), #[trigger] final(state).records_view()[i], pr, name@,
                sviews(configs@), branch@, worktree@),
        forall|x: ProcessRecord| old(state).records_view().contains(x) && x.pr != pr ==> final(state).records_view().contains(x),
        forall|x: ProcessRecord| final(state).records_view().contains(x) ==> x.pr == pr || old(state).records_view().contains(x),
{
    feature_add(state, name, pr, configs, branch, worktree);
    let mut out = String::from_str("Added PR #");
    push_u64(&mut out, pr);
    push_str(&mut out, " to feature '");
    push_str(&mut out, name);
    push_str(&mut out, "'");
    out
}

pub open spec fn envelope_missing_message(name: Seq<char>) -> Seq<char> {
    "Feature envelope '"@ + name + "' not found"@
}

pub open spec fn not_member_message(pr: u64, name: Seq<char>) -> Seq<char> {
    "PR #"@ + dec(pr as nat) + " is not a member of feature envelope '"@ + name + "'"@
}

/// The report of pull request `pr` leaving `envelope`, with `remaining`
/// members left.
pub open spec fn leave_message(pr: u64, envelope: Seq<char>, remaining: nat) -> Seq<char> {
    "Removed PR #"@ + dec(pr as nat) + " from feature envelope '"@ + envelope + "' "@
        + if remaining == 0 { "(envelope deleted)\n"@ } else { "("@ + dec(remaining) + " members remaining)\n"@ }
}

pub fn envelope_leave_message(pr: u64, envelope: &str, remaining: usize) -> (r: String)
    ensures
        r@ == leave_message(pr, envelope@, remaining as nat),
{
    let mut out = String::from_str("Removed PR #");
    push_u64(&mut out, pr);
    push_str(&mut out, " from feature envelope '");
    push_str(&mut out, envelope);
    push_str(&mut out, "' ");
    if remaining == 0 {
        push_str(&mut out, "(envelope deleted)\n");
    } else {
        push_str(&mut out, "(");
        push_u64(&mut out, remaining as u64);
        push_str(&mut out, " members remaining)\n");
    }
    out
}

/// Drop the record of `pr`; when it belonged to an envelope, report that
/// envelope and how many members it keeps, and delete the envelope when it
/// keeps none.
pub fn leave_envelope(state: &mut ProcessState, pr: u64) -> (r: Option<(String, usize)>)
    ensures
        record_of(final(state).records_view(), pr) is None,
        forall|x: ProcessRecord| final(state).records_view().contains(x) <==> (old(state).records_view().contains(x) && x.pr != pr),
        match record_of(old(state).records_view(), pr) {
            Some(rec) => match envelope_of(rec) {
                Some(e) => r matches Some(p) && p.0@ == e
                    && p.1 == members(final(state).records_view(), e).len()
                    && (final(state).has_envelope(e) <==> (old(state).has_envelope(e) && p.1 > 0))
                    && forall|n: Seq<char>| n != e ==> final(state).has_envelope(n) == old(state).has_envelope(n),
                None => r is None && forall|n: Seq<char>| final(state).has_envelope(n) == old(state).has_envelope(n),
            },
            None => r is None && forall|n: Seq<char>| final(state).has_envelope(n) == old(state).has_envelope(n),
        },
        forall|k: Seq<char>| final(state).dep_record(k) == old(state).dep_record(k),
        final(state).dep_entries() == old(state).dep_entries(),
        forall|k: Seq<char>| final(state).deps_of(k) == old(state).deps_of(k),
        forall|k: Seq<char>| final(state).test_config(k) == old(state).test_config(k),
{
    let taken = state.remove_record(pr);
    match taken {
        Some(rec) => match rec.feature_envelope {
            Some(e) => {
                let remaining = member_count(state.records(), e.as_str());
                if remaining == 0 {
                    state.remove_envelope(e.as_str());
                }
                Some((e, remaining))
            },
            None => None,
        },
        None => None,
    }
}

/// Take pull request `pr` out of envelope `name`, deleting the envelope when
/// it was the last member.
pub fn cmd_feature_remove(state: &mut ProcessState, name: &str, pr: u64) -> (r: Result<String, String>)
    ensures
        !old(state).has_envelope(name@) ==> (r matches Err(e) && e@ == envelope_missing_message(name@)),
        old(state).has_envelope(name@) && !(record_of(old(state).records_view(), pr) matches Some(x) && in_envelope(x, name@))
            ==> (r matches Err(e) && e@ == not_member_message(pr, name@)),
        r is Ok <==> (old(state).has_envelope(name@)
            && (record_of(old(state).records_view(), pr) matches Some(x) && in_envelope(x, name@))),
        r is Err ==> *final(state) == *old(state),
        r matches Ok(m) ==> {
            let remaining = members(final(state).records_view(), name@).len();
            &&& old(state).has_envelope(name@)
            &&& record_of(old(state).records_view(), pr) matches Some(x) && in_envelope(x, name@)
            &&& m@ == leave_message(pr, name@, remaining)
            &&& record_of(final(state).records_view(), pr) is None
            &&& forall|x: ProcessRecord| final(state).records_view().contains(x) <==> (old(state).records_view().contains(x) && x.pr != pr)
            &&& (final(state).has_envelope(name@) <==> remaining > 0)
            &&& forall|n: Seq<char>| n != name@ ==> final(state).has_envelope(n) == old(state).has_envelope(n)
        },
{
    if !state.contains_envelope(name) {
        let mut e = String::from_str("Feature envelope '");
        push_str(&mut e, name);
        push_str(&mut e, "' not found");
        return Err(e);
    }
    let member = match state.record(pr) {
        Some(x) => crate::process::record_in(x, name),
        None => false,
    };
    if !member {
        let mut e = String::from_str("PR #");
        push_u64(&mut e, pr);
        push_str(&mut e, " is not a member of feature envelope '");
        push_str(&mut e, name);
        push_str(&mut e, "'");
        return Err(e);
    }
    match leave_envelope(state, pr) {
        Some((e, remaining)) => Ok(envelope_leave_message(pr, e.as_str(), remaining)),
        None => Ok(String::new()),
    }
}

/// Drop the shared dependency `app_config_name` of `envelope` and its instance.
pub fn cmd_feature_remove_dep(state: &mut ProcessState, envelope: &str, app_config_name: &str) -> (r: Result<String, String>)
    ensures
        !old(state).has_envelope(envelope@) <==> r is Err,
        r matches Err(e) ==> e@ == envelope_missing_message(envelope@) && final(state).deps_of(envelope@) == old(state).deps_of(envelope@)
            && forall|k: Seq<char>| final(state).dep_record(k) == old(state).dep_record(k),
        r matches Ok(m) ==> {
            &&& m@ == "Removed dep '"@ + app_config_name@ + "' from feature '"@ + envelope@ + "'.\n"@
            &&& final(state).deps_of(envelope@) == match old(state).deps_of(envelope@) {
                Some(d) => Some(d.filter(|x: Seq<char>| x != app_config_name@)),
                None => None,
            }
            &&& final(state).dep_record(envelope@ + ":"@ + app_config_name@) is None
            &&& forall|k: Seq<char>| k != envelope@ + ":"@ + app_config_name@ ==> final(state).dep_record(k) == old(state).dep_record(k)
        },
        forall|k: Seq<char>| k != envelope@ ==> final(state).deps_of(k) == old(state).deps_of(k),
        final(state).records_view() == old(state).records_view(),
        forall|n: Seq<char>| final(state).has_envelope(n) == old(state).has_envelope(n),
{
    if !state.contains_envelope(envelope) {
        let mut e = String::from_str("Feature envelope '");
        push_str(&mut e, envelope);
        push_str(&mut e, "' not found");
        return Err(e);
    }
    state.remove_dep(envelope, app_config_name);
    let mut key = copy_str(envelope);
    push_str(&mut key, ":");
    push_str(&mut key, app_config_name);
    state.remove_dep_record(key.as_str());
    let mut out = String::from_str("Removed dep '");
    push_str(&mut out, app_config_name);
    push_str(&mut out, "' from feature '");
    push_str(&mut out, envelope);
    push_str(&mut out, "'.\n");
    Ok(out)
}

/// Set the test command of envelope `name`.
pub fn cmd_feature_set_test(state: &mut ProcessState, name: &str, command: &str) -> (r: Result<String, String>)
    ensures
        !old(state).has_envelope(name@) <==> r is Err,
        r matches Err(e) ==> e@ == envelope_missing_message(name@) && final(state).test_config(name@) == old(state).test_config(name@),
        r matches Ok(m) ==> m@ == "Set test command for feature '"@ + name@ + "'.\n"@
            && final(state).test_config(name@) == Some(Some(command@)),
        forall|k: Seq<char>| k != name@ ==> final(state).test_config(k) == old(state).test_config(k),
        final(state).records_view() == old(state).records_view(),
        forall|n: Seq<char>| final(state).has_envelope(n) == old(state).has_envelope(n),
        forall|k: Seq<char>| final(state).dep_record(k) == old(state).dep_record(k),
        final(state).dep_entries() == old(state).dep_entries(),
        forall|k: Seq<char>| final(state).deps_of(k) == old(state).deps_of(k),
{
    if !state.contains_envelope(name) {
        let mut e = String::from_str("Feature envelope '");
        push_str(&mut e, name);
        push_str(&mut e, "' not found");
        return Err(e);
    }
    state.set_test_command(name, command);
    let mut out = String::from_str("Set test command for feature '");
    push_str(&mut out, name);
    push_str(&mut out, "'.\n");
    Ok(out)
}

// ---------------------------------------------------------------------------
// Testing an envelope

pub open spec fn no_test_message(name: Seq<char>) -> Seq<char> {
    "No test command set for feature '"@ + name + "' — use: fp feature set-test "@ + name + " <command>"@
}

/// The instance name the test of envelope `name` runs under.
pub open spec fn test_instance_of(name: Seq<char>) -> Seq<char> {
    replace_all(lowercase("fp-test-"@ + name), "/"@, "-"@)
}

/// The test command of envelope `name` and the instance it runs under; an
/// error when the envelope does not exist or has no test command.
pub fn feature_test_command(state: &ProcessState, name: &str) -> (r: Result<(String, String), String>)
    ensures
        !state.has_envelope(name@) ==> (r matches Err(e) && e@ == envelope_missing_message(name@)),
        state.has_envelope(name@) ==> match crate::commands::test_of(*state, name@) {
            Some(c) => r matches Ok(p) && p.0@ == c && p.1@ == test_instance_of(name@),
            None => r matches Err(e) && e@ == no_test_message(name@),
        },
{
    if !state.contains_envelope(name) {
        let mut e = String::from_str("Feature envelope '");
        push_str(&mut e, name);
        push_str(&mut e, "' not found");
        return Err(e);
    }
    match state.test_command(name) {
        Some(c) => {
            let mut raw = String::from_str("fp-test-");
            push_str(&mut raw, name);
            let lowered = to_lowercase(raw.as_str());
            Ok((c, crate::services::instance_from_lowered(lowered.as_str())))
        },
        None => {
            let mut e = String::from_str("No test command set for feature '");
            push_str(&mut e, name);
            push_str(&mut e, "' — use: fp feature set-test ");
            push_str(&mut e, name);
            push_str(&mut e, " <command>");
            Err(e)
        },
    }
}

/// The report of running test command `cmd` of envelope `name`: what it wrote
/// to its output and its error output, after a line that says whether it passed.
/// A failed test is an error that carries the same report.
pub fn cmd_feature_test(name: &str, cmd: &str, passed: bool, stdout: &str, stderr: &str) -> (r: Result<String, String>)
    ensures
        ({
            let report = trim_end("Feature '"@ + name@ + "' test "@ + (if passed { "passed"@ } else { "FAILED"@ })
                + " (cmd: "@ + cmd@ + "):\n"@ + stdout@ + stderr@);
            if passed { r matches Ok(m) && m@ == report } else { r matches Err(e) && e@ == report }
        }),
{
    let mut out = String::from_str("Feature '");
    push_str(&mut out, name);
    push_str(&mut out, "' test ");
    push_str(&mut out, if passed { "passed" } else { "FAILED" });
    push_str(&mut out, " (cmd: ");
    push_str(&mut out, cmd);
    push_str(&mut out, "):\n");
    push_str(&mut out, stdout);
    push_str(&mut out, stderr);
    let report = trimmed_end(out.as_str());
    if passed { Ok(report) } else { Err(report) }
}

// ---------------------------------------------------------------------------
// The logs of an envelope

/// Whether the file name `f` is that of a log of pull request `pr`.
pub open spec fn log_of_pr(f: Seq<char>, pr: u64) -> bool {
    let suffix = "-"@ + dec(pr as nat) + ".log"@;
    f.len() >= suffix.len() && f.subrange(f.len() - suffix.len(), f.len() as int) == suffix
}

/// The logs of the members of envelope `name` among the file names `files`:
/// for each member in record order, the files of its pull request in the order
/// given, each labelled with the pull request.
pub open spec fn member_logs(rs: Seq<ProcessRecord>, name: Seq<char>, files: Seq<Seq<char>>) -> Seq<(Seq<char>, Seq<char>)>
    decreases rs.len(),
{
    if rs.len() == 0 {
        seq![]
    } else {
        let r = rs.last();
        member_logs(rs.drop_last(), name, files) + if in_envelope(r, name) {
            files.filter(|f: Seq<char>| log_of_pr(f, r.pr)).map_values(|f: Seq<char>| ("PR #"@ + dec(r.pr as nat), f))
        } else {
            seq![]
        }
    }
}

/// The logs of envelope `name`, each a label and a file name in the log
/// directory: one per shared instance, in order of key, then those of the
/// members found among `files`.
pub open spec fn envelope_logs(state: ProcessState, name: Seq<char>, files: Seq<Seq<char>>) -> Seq<(Seq<char>, Seq<char>)> {
    dep_keys_of(state.dep_entries(), name).map_values(|k: Seq<char>|
        ("dep "@ + dep_cfg(k), crate::services::dep_instance_of(name, dep_cfg(k)) + ".log"@))
        + member_logs(state.records_view(), name, files)
}

fn ends_with_log_of(f: &str, pr: u64) -> (b: bool)
    ensures
        b == log_of_pr(f@, pr),
{
    let mut suffix = String::from_str("-");
    push_u64(&mut suffix, pr);
    push_str(&mut suffix, ".log");
    let fv = chars_of(f);
    let sv = chars_of(suffix.as_str());
    if fv.len() < sv.len() {
        return false;
    }
    matches_at(&fv, fv.len() - sv.len(), &sv)
}

fn push_member_logs(out: &mut Vec<(String, String)>, pr: u64, files: &[String])
    ensures
        final(out)@.map_values(|e: (String, String)| (e.0@, e.1@)) == old(out)@.map_values(|e: (String, String)| (e.0@, e.1@))
            + sviews(files@).filter(|f: Seq<char>| log_of_pr(f, pr)).map_values(|f: Seq<char>| ("PR #"@ + dec(pr as nat), f)),
{
    let ghost o0 = old(out)@.map_values(|e: (String, String)| (e.0@, e.1@));
    let ghost fs = sviews(files@);
    let ghost pred = |f: Seq<char>| log_of_pr(f, pr);
    let ghost g = |f: Seq<char>| ("PR #"@ + dec(pr as nat), f);
    let mut i: usize = 0;
    while i < files.len()
        invariant
            i <= files@.len(),
            fs == sviews(files@),
            pred == (|f: Seq<char>| log_of_pr(f, pr)),
            g == (|f: Seq<char>| ("PR #"@ + dec(pr as nat), f)),
            out@.map_values(|e: (String, String)| (e.0@, e.1@)) == o0 + fs.take(i as int).filter(pred).map_values(g),
        decreases files@.len() - i,
    {
        proof { lemma_filter_take(fs, pred, i as int); }
        let ghost before = out@.map_values(|e: (String, String)| (e.0@, e.1@));
        assert(fs[i as int] == files@[i as int]@);
        if ends_with_log_of(files[i].as_str(), pr) {
            let mut label = String::from_str("PR #");
            push_u64(&mut label, pr);
            out.push((label, copy_str(files[i].as_str())));
            assert(out@.map_values(|e: (String, String)| (e.0@, e.1@)) =~= before.push(g(fs[i as int])));
        }
        i += 1;
    }
    assert(fs.take(files@.len() as int) =~= fs);
}

/// The logs of envelope `name` (see `envelope_logs`), from the file names
/// found in the log directory.
pub fn feature_log_files(state: &ProcessState, name: &str, files: &[String]) -> (r: Vec<(String, String)>)
    ensures
        r@.map_values(|e: (String, String)| (e.0@, e.1@)) == envelope_logs(*state, name@, sviews(files@)),
{
    let slots = dep_slots(state, name);
    let ghost ks = dep_keys_of(state.dep_entries(), name@);
    let ghost dl = |k: Seq<char>| ("dep "@ + dep_cfg(k), crate::services::dep_instance_of(name@, dep_cfg(k)) + ".log"@);
    let mut out: Vec<(String, String)> = Vec::new();
    let mut j: usize = 0;
    while j < slots.len()
        invariant
            j <= slots@.len(),
            slots@.map_values(|e: (String, String, String)| e.0@) == ks,
            forall|q: int| 0 <= q < slots@.len() ==> ((#[trigger] slots@[q]).1@ == dep_cfg(slots@[q].0@)
                && (state.dep_record(slots@[q].0@) matches Some(d) && d.worktree@ == slots@[q].2@)),
            dl == (|k: Seq<char>| ("dep "@ + dep_cfg(k), crate::services::dep_instance_of(name@, dep_cfg(k)) + ".log"@)),
            out@.map_values(|e: (String, String)| (e.0@, e.1@)) == ks.take(j as int).map_values(dl),
        decreases slots@.len() - j,
    {
        let ghost before = out@.map_values(|e: (String, String)| (e.0@, e.1@));
        let ghost k = slots@[j as int].0@;
        assert(ks[j as int] == k);
        let cfg = slots[j].1.as_str();
        let mut label = String::from_str("dep ");
        push_str(&mut label, cfg);
        let mut file = crate::services::dep_instance(name, cfg);
        push_str(&mut file, ".log");
        out.push((label, file));
        assert(ks.take(j + 1) =~= ks.take(j as int).push(k));
        assert(out@.map_values(|e: (String, String)| (e.0@, e.1@)) =~= before.push(dl(k)));
        j += 1;
    }
    assert(ks.take(slots@.len() as int) =~= ks);
    let ghost mid = out@.map_values(|e: (String, String)| (e.0@, e.1@));
    let rs = state.records();
    let mut i: usize = 0;
    assert(rs@.take(0) =~= Seq::<ProcessRecord>::empty());
    while i < rs.len()
        invariant
            i <= rs@.len(),
            rs@ == state.records_view(),
            out@.map_values(|e: (String, String)| (e.0@, e.1@)) == mid + member_logs(rs@.take(i as int), name@, sviews(files@)),
        decreases rs@.len() - i,
    {
        let ghost next = rs@.take(i + 1);
        assert(next.drop_last() =~= rs@.take(i as int));
        assert(next.last() == rs@[i as int]);
        if crate::process::record_in(&rs[i], name) {
            push_member_logs(&mut out, rs[i].pr, files);
        }
        i += 1;
    }
    assert(rs@.take(rs@.len() as int) =~= rs@);
    out
}

/// One log in the report of `fp feature logs`: what the file holds, or that it
/// does not exist yet (`None`).
pub open spec fn log_block(label: Seq<char>, path: Seq<char>, content: Option<Seq<char>>) -> Seq<char> {
    "=== "@ + label + " ("@ + path + ") ===\n"@ + match content {
        Some(c) => if c.len() == 0 { "(empty)\n"@ } else { c },
        None => "(log file not yet created)\n"@,
    } + "\n"@
}

pub open spec fn log_blocks(es: Seq<(String, String, Option<String>)>) -> Seq<char>
    decreases es.len(),
{
    if es.len() == 0 {
        seq![]
    } else {
        let e = es.last();
        log_blocks(es.drop_last()) + log_block(e.0@, e.1@, crate::model::opt_view(e.2))
    }
}

/// What `fp feature logs` prints: each log (label, path, content) in turn, or
/// where the logs would be when there are none.
pub fn cmd_feature_logs(name: &str, log_dir: &str, entries: &[(String, String, Option<String>)]) -> (r: String)
    ensures
        r@ == if entries@.len() == 0 {
            "No logs found for feature '"@ + name@ + "'.\nLog directory: "@ + log_dir@
        } else {
            trim_end(log_blocks(entries@))
        },
{
    if entries.len() == 0 {
        let mut out = String::from_str("No logs found for feature '");
        push_str(&mut out, name);
        push_str(&mut out, "'.\nLog directory: ");
        push_str(&mut out, log_dir);
        return out;
    }
    let mut out = String::new();
    let mut i: usize = 0;
    assert(entries@.take(0) =~= Seq::<(String, String, Option<String>)>::empty());
    while i < entries.len()
        invariant
            i <= entries@.len(),
            out@ == log_blocks(entries@.take(i as int)),
        decreases entries@.len() - i,
    {
        let e = &entries[i];
        push_str(&mut out, "=== ");
        push_str(&mut out, e.0.as_str());
        push_str(&mut out, " (");
        push_str(&mut out, e.1.as_str());
        push_str(&mut out, ") ===\n");
        match &e.2 {
            Some(c) => if c.as_str().is_empty() { push_str(&mut out, "(empty)\n"); } else { push_str(&mut out, c.as_str()); },
            None => push_str(&mut out, "(log file not yet created)\n"),
        }
        push_str(&mut out, "\n");
        let ghost next = entries@.take(i + 1);
        assert(next.drop_last() =~= entries@.take(i as int));
        assert(next.last() == entries@[i as int]);
        i += 1;
    }
    assert(entries@.take(entries@.len() as int) =~= entries@);
    trimmed_end(out.as_str())
}

pub open spec fn no_members_message(name: Seq<char>) -> Seq<char> {
    "Feature '"@ + name + "' has no member PRs with app configs."@
}

pub open spec fn pid_note() -> Seq<char> {
    "\nNote: fp tracks processes by PID — your bootstrap script must stay in the foreground (do not daemonize)."@
}

/// The report of `fp feature up` from the messages of each start.
pub fn cmd_feature_up(name: &str, msgs: &[String]) -> (r: String)
    ensures
        r@ == if msgs@.len() == 0 { no_members_message(name@) } else { join(sviews(msgs@), "\n"@) + pid_note() },
{
    if msgs.len() == 0 {
        let mut out = String::from_str("Feature '");
        push_str(&mut out, name);
        push_str(&mut out, "' has no member PRs with app configs.");
        return out;
    }
    let mut out = String::new();
    push_joined_strings(&mut out, msgs, "\n");
    push_str(&mut out, "\nNote: fp tracks processes by PID — your bootstrap script must stay in the foreground (do not daemonize).");
    out
}

/// The report of `fp feature down` from the messages of each stop.
pub fn cmd_feature_down(name: &str, msgs: &[String]) -> (r: String)
    ensures
        r@ == if msgs@.len() == 0 { no_members_message(name@) } else { join(sviews(msgs@), "\n"@) },
{
    if msgs.len() == 0 {
        let mut out = String::from_str("Feature '");
        push_str(&mut out, name);
        push_str(&mut out, "' has no member PRs with app configs.");
        return out;
    }
    let mut out = String::new();
    push_joined_strings(&mut out, msgs, "\n");
    out
}

/// The report of `fp feature rebuild` from the messages of each rebuild.
pub fn cmd_feature_rebuild(name: &str, msgs: &[String]) -> (r: String)
    ensures
        r@ == if msgs@.len() == 0 {
            "Feature '"@ + name@ + "' has no matching ephemeral members."@
        } else {
            join(sviews(msgs@), "\n"@)
        },
{
    if msgs.len() == 0 {
        let mut out = String::from_str("Feature '");
        push_str(&mut out, name);
        push_str(&mut out, "' has no matching ephemeral members.");
        return out;
    }
    let mut out = String::new();
    push_joined_strings(&mut out, msgs, "\n");
    out
}

/// What `fp feature up` does when other envelopes run.
pub enum UpPlan {
    /// Start the envelope.
    Start,
    /// Stop nothing and start nothing; the text says why.
    Aborted(String),
    /// Stop these envelopes, then start.
    TearDownFirst(Vec<String>),
}

/// The other envelopes that run (a member's pid among `live`), in order of name.
pub open spec fn conflicting(state: ProcessState, name: Seq<char>, live: Seq<u32>) -> Seq<Seq<char>> {
    state.envelopes().filter(|e: Seq<char>| e != name && running(state.records_view(), e, live))
}

/// Decide how to start envelope `name`: when other envelopes run, abort with
/// `no`, stop them first with `yes`, and refuse otherwise.
pub fn cmd_feature_up_checked(state: &ProcessState, name: &str, yes: bool, no: bool, live: &[u32]) -> (r: Result<UpPlan, String>)
    ensures
        ({
            let c = conflicting(*state, name@, live@);
            &&& (c.len() == 0 ==> (r matches Ok(UpPlan::Start)))
            &&& (c.len() > 0 && no ==> (r matches Ok(UpPlan::Aborted(m))
                && m@ == "aborted: conflicting running feature(s): "@ + join(c, ", "@)))
            &&& (c.len() > 0 && !no && yes ==> (r matches Ok(UpPlan::TearDownFirst(v)) && sviews(v@) == c))
            &&& (c.len() > 0 && !no && !yes ==> (r matches Err(e)
                && e@ == "conflicting running feature(s): "@ + join(c, ", "@) + " — use --yes to tear down or --no to abort"@))
        }),
{
    let names = state.envelope_names();
    let rs = state.records();
    let ghost ns = state.envelopes();
    let ghost pred = |e: Seq<char>| e != name@ && running(state.records_view(), e, live@);
    let mut found: Vec<String> = Vec::new();
    let mut i: usize = 0;
    while i < names.len()
        invariant
            i <= names@.len(),
            names@.map_values(|s: String| s@) == ns,
            ns == state.envelopes(),
            rs@ == state.records_view(),
            pred == (|e: Seq<char>| e != name@ && running(state.records_view(), e, live@)),
            sviews(found@) == ns.take(i as int).filter(pred),
        decreases names@.len() - i,
    {
        let ghost before = sviews(found@);
        proof { crate::keyed::lemma_filter_take(ns, pred, i as int); }
        assert(ns[i as int] == names@[i as int]@);
        if !str_eq(names[i].as_str(), name) && any_running(rs, names[i].as_str(), live) {
            found.push(copy_str(names[i].as_str()));
            assert(sviews(found@) =~= before.push(ns[i as int]));
        }
        i += 1;
    }
    assert(ns.take(names@.len() as int) =~= ns);
    if found.len() == 0 {
        return Ok(UpPlan::Start);
    }
    if no {
        let mut m = String::from_str("aborted: conflicting running feature(s): ");
        push_joined_strings(&mut m, &found, ", ");
        return Ok(UpPlan::Aborted(m));
    }
    if yes {
        return Ok(UpPlan::TearDownFirst(found));
    }
    let mut e = String::from_str("conflicting running feature(s): ");
    push_joined_strings(&mut e, &found, ", ");
    push_str(&mut e, " — use --yes to tear down or --no to abort");
    Err(e)
}

/// The line reporting that envelope `feature` was stopped, with the messages
/// of each stop.
pub fn torn_down_message(feature: &str, msgs: &[String]) -> (r: String)
    ensures
        r@ == "torn down feature '"@ + feature@ + "': "@ + join(sviews(msgs@), ", "@) + "\n"@,
{
    let mut out = String::from_str("torn down feature '");
    push_str(&mut out, feature);
    push_str(&mut out, "': ");
    push_joined_strings(&mut out, msgs, ", ");
    push_str(&mut out, "\n");
    out
}

pub open spec fn health_hint(s: PrHealthStatus) -> Seq<char> {
    if !s.pid_alive && s.service_healthy is Some {
        if s.service_healthy == Some(true) {
            " (installed)"@
        } else {
            " (not installed — run: fp feature rebuild <name> --pr "@ + dec(s.pr as nat) + ")"@
        }
    } else {
        seq![]
    }
}

pub open spec fn status_lines(ss: Seq<PrHealthStatus>) -> Seq<char>
    decreases ss.len(),
{
    if ss.len() == 0 {
        seq![]
    } else {
        let s = ss.last();
        status_lines(ss.drop_last()) + "  PR #"@ + dec(s.pr as nat) + ": "@
            + (if s.pid_alive { "up"@ } else { "down"@ }) + health_hint(s) + "\n"@
    }
}

fn push_status_line(out: &mut String, s: PrHealthStatus)
    ensures
        final(out)@ == old(out)@ + "  PR #"@ + dec(s.pr as nat) + ": "@
            + (if s.pid_alive { "up"@ } else { "down"@ }) + health_hint(s) + "\n"@,
{
    push_str(out, "  PR #");
    push_u64(out, s.pr);
    push_str(out, ": ");
    if s.pid_alive {
        push_str(out, "up");
    } else {
        push_str(out, "down");
    }
    if !s.pid_alive && s.service_healthy.is_some() {
        if s.service_healthy == Some(true) {
            push_str(out, " (installed)");
        } else {
            push_str(out, " (not installed — run: fp feature rebuild <name> --pr ");
            push_u64(out, s.pr);
            push_str(out, ")");
        }
    }
    push_str(out, "\n");
}

/// What `fp switch` says of the envelope of pull request `pr`, from the health
/// of its members: nothing when `pr` belongs to none.
pub fn cmd_switch_feature_summary(state: &ProcessState, pr: u64, statuses: &[PrHealthStatus]) -> (r: String)
    ensures
        r@ == match record_of(state.records_view(), pr) {
            Some(x) => match envelope_of(x) {
                Some(e) => "Feature: "@ + e + "\n"@ + status_lines(statuses@),
                None => seq![],
            },
            None => seq![],
        },
{
    let envelope = match state.record(pr) {
        Some(x) => match &x.feature_envelope {
            Some(e) => copy_str(e.as_str()),
            None => return String::new(),
        },
        None => return String::new(),
    };
    let mut out = String::from_str("Feature: ");
    push_str(&mut out, envelope.as_str());
    push_str(&mut out, "\n");
    let ghost o1 = out@;
    let mut i: usize = 0;
    assert(statuses@.take(0) =~= Seq::<PrHealthStatus>::empty());
    while i < statuses.len()
        invariant
            i <= statuses@.len(),
            out@ == o1 + status_lines(statuses@.take(i as int)),
        decreases statuses@.len() - i,
    {
        push_status_line(&mut out, statuses[i]);
        let ghost next = statuses@.take(i + 1);
        assert(next.drop_last() =~= statuses@.take(i as int));
        assert(next.last() == statuses@[i as int]);
        i += 1;
    }
    assert(statuses@.take(statuses@.len() as int) =~= statuses@);
    out
}

// ---------------------------------------------------------------------------
// Starting one pull request's services

pub open spec fn no_record_message(pr: u64) -> Seq<char> {
    "PR #"@ + dec(pr as nat) + " not found in process state — run `fp feature add` first"@
}

fn no_record_error(pr: u64) -> (e: String)
    ensures
        e@ == no_record_message(pr),
{
    let mut e = String::from_str("PR #");
    push_u64(&mut e, pr);
    push_str(&mut e, " not found in process state — run `fp feature add` first");
    e
}

/// The worktree of pull request `pr`, where `fp pr up --config ..` starts the
/// named configurations.
pub fn cmd_pr_up_with_configs(state: &ProcessState, pr: u64) -> (r: Result<String, String>)
    ensures
        record_of(state.records_view(), pr) is None <==> r is Err,
        r matches Err(e) ==> e@ == no_record_message(pr),
        r matches Ok(w) ==> record_of(state.records_view(), pr) matches Some(x) && w@ == x.worktree@,
{
    match state.record(pr) {
        Some(x) => Ok(copy_str(x.worktree.as_str())),
        None => Err(no_record_error(pr)),
    }
}

/// The worktree of pull request `pr` and the configurations `fp pr up` starts
/// there: an error when it has no record or no configuration.
pub fn cmd_pr_up(state: &ProcessState, pr: u64) -> (r: Result<(String, Vec<String>), String>)
    ensures
        record_of(state.records_view(), pr) is None ==> (r matches Err(e) && e@ == no_record_message(pr)),
        (record_of(state.records_view(), pr) matches Some(x) && x.app_config_names@.len() == 0)
            ==> (r matches Err(e) && e@ == "no app config assigned to PR #"@ + dec(pr as nat) + " — use `fp feature add --config`"@),
        r is Ok <==> (record_of(state.records_view(), pr) matches Some(x) && x.app_config_names@.len() > 0),
        r matches Ok(p) ==> record_of(state.records_view(), pr) matches Some(x) && x.app_config_names@.len() > 0
            && p.0@ == x.worktree@ && sviews(p.1@) == sviews(x.app_config_names@),
{
    match state.record(pr) {
        Some(x) => {
            if x.app_config_names.len() == 0 {
                let mut e = String::from_str("no app config assigned to PR #");
                push_u64(&mut e, pr);
                push_str(&mut e, " — use `fp feature add --config`");
                return Err(e);
            }
            let names = crate::process::copy_strings(&x.app_config_names);
            Ok((copy_str(x.worktree.as_str()), names))
        },
        None => Err(no_record_error(pr)),
    }
}

/// The worktree of pull request `pr` and the configurations `fp pr up --force`
/// stops before it starts them again.
pub fn cmd_pr_up_force(state: &ProcessState, pr: u64) -> (r: Result<(String, Vec<String>), String>)
    ensures
        record_of(state.records_view(), pr) is None <==> r is Err,
        r matches Err(e) ==> e@ == no_record_message(pr),
        r matches Ok(p) ==> record_of(state.records_view(), pr) matches Some(x)
            && p.0@ == x.worktree@ && sviews(p.1@) == sviews(x.app_config_names@),
{
    match state.record(pr) {
        Some(x) => {
            let names = crate::process::copy_strings(&x.app_config_names);
            Ok((copy_str(x.worktree.as_str()), names))
        },
        None => Err(no_record_error(pr)),
    }
}

pub fn pr_started_message(pr: u64, config_name: &str) -> (r: String)
    ensures
        r@ == "PR #"@ + dec(pr as nat) + ": started ("@ + config_name@ + ")"@,
{
    let mut out = String::from_str("PR #");
    push_u64(&mut out, pr);
    push_str(&mut out, ": started (");
    push_str(&mut out, config_name);
    push_str(&mut out, ")");
    out
}

// ---------------------------------------------------------------------------
// App configurations

pub open spec fn app_line(c: AppConfig) -> Seq<char> {
    "  "@ + c.name@ + (if c.health_check is Some { " (health-check)"@ } else { seq![] })
        + (if c.ephemeral { " [ephemeral]"@ } else { seq![] }) + "\n"@
}

pub open spec fn app_lines(cs: Seq<AppConfig>) -> Seq<char>
    decreases cs.len(),
{
    if cs.len() == 0 {
        seq![]
    } else {
        app_lines(cs.drop_last()) + app_line(cs.last())
    }
}

/// Every app configuration, in order of name, one per line.
pub fn cmd_app_list(config: &AppConfigStore) -> (r: String)
    ensures
        r@ == if config.configs_view().len() == 0 {
            "No app configs defined."@
        } else {
            trim_end(app_lines(config.configs_view()))
        },
{
    let configs = config.list_app_configs();
    if configs.len() == 0 {
        return String::from_str("No app configs defined.");
    }
    let mut out = String::new();
    let mut i: usize = 0;
    assert(configs@.take(0) =~= Seq::<AppConfig>::empty());
    while i < configs.len()
        invariant
            i <= configs@.len(),
            out@ == app_lines(configs@.take(i as int)),
        decreases configs@.len() - i,
    {
        let c = &configs[i];
        push_str(&mut out, "  ");
        push_str(&mut out, c.name.as_str());
        if c.health_check.is_some() {
            push_str(&mut out, " (health-check)");
        }
        if c.ephemeral {
            push_str(&mut out, " [ephemeral]");
        }
        push_str(&mut out, "\n");
        let ghost next = configs@.take(i + 1);
        assert(next.drop_last() =~= configs@.take(i as int));
        assert(next.last() == configs@[i as int]);
        i += 1;
    }
    assert(configs@.take(configs@.len() as int) =~= configs@);
    trimmed_end(out.as_str())
}

/// Assign configuration `config_name` to `repo`.
pub fn cmd_app_set_config(store: &mut AppConfigStore, repo: &str, config_name: &str) -> (r: String)
    ensures
        r@ == "Assigned config '"@ + config_name@ + "' to repo '"@ + repo@ + "'"@,
        final(store).assignment(repo@) == Some(config_name@),
        forall|x: Seq<char>| x != repo@ ==> final(store).assignment(x) == old(store).assignment(x),
        forall|n: Seq<char>| final(store).config(n) == old(store).config(n),
{
    store.set_repo_config(repo, config_name);
    let mut out = String::from_str("Assigned config '");
    push_str(&mut out, config_name);
    push_str(&mut out, "' to repo '");
    push_str(&mut out, repo);
    push_str(&mut out, "'");
    out
}

pub open spec fn opt_str_view(o: Option<&str>) -> Option<Seq<char>> {
    match o {
        Some(s) => Some(s@),
        None => None,
    }
}

fn string_of_opt(o: Option<&str>) -> (r: Option<String>)
    ensures
        crate::model::opt_view(r) == opt_str_view(o),
{
    match o {
        Some(s) => Some(copy_str(s)),
        None => None,
    }
}

/// Whether neither the bootstrap nor the teardown script of a configuration
/// mentions `FP_WORKTREE`, the variable that tells a service its worktree.
pub open spec fn lacks_worktree_var(bootstrap: Seq<char>, teardown: Seq<char>) -> bool {
    !contains_sub(bootstrap, "FP_WORKTREE"@) && !contains_sub(teardown, "FP_WORKTREE"@)
}

/// The warning `fp app define-config` gives for scripts that never mention
/// `FP_WORKTREE`.
pub open spec fn worktree_var_warning() -> Seq<char> {
    "\nWarning: neither bootstrap nor teardown mentions $FP_WORKTREE; the service will not know which worktree it serves"@
}

/// Define (or redefine) the app configuration `name`, warning when neither
/// script mentions `FP_WORKTREE`.
pub fn cmd_app_define_config(store: &mut AppConfigStore, name: &str, bootstrap: &str, teardown: &str,
    startup_timeout: &str, health_check: Option<&str>, ephemeral: bool, main_worktree: Option<&str>,
    setup: Option<&str>, volume_check: Option<&str>) -> (r: String)
    ensures
        r@ == "Defined app config '"@ + name@ + "'"@
            + if lacks_worktree_var(bootstrap@, teardown@) { worktree_var_warning() } else { Seq::<char>::empty() },
        final(store).config(name@) matches Some(c) && c.name@ == name@ && c.bootstrap@ == bootstrap@
            && c.teardown@ == teardown@ && c.startup_timeout@ == startup_timeout@
            && crate::model::opt_view(c.health_check) == opt_str_view(health_check) && c.ephemeral == ephemeral
            && crate::model::opt_view(c.main_worktree) == opt_str_view(main_worktree)
            && crate::model::opt_view(c.setup) == opt_str_view(setup)
            && crate::model::opt_view(c.volume_check) == opt_str_view(volume_check),
        forall|n: Seq<char>| n != name@ ==> final(store).config(n) == old(store).config(n),
        forall|x: Seq<char>| final(store).assignment(x) == old(store).assignment(x),
{
    let cfg = AppConfig {
        name: copy_str(name),
        bootstrap: copy_str(bootstrap),
        teardown: copy_str(teardown),
        startup_timeout: copy_str(startup_timeout),
        health_check: string_of_opt(health_check),
        ephemeral,
        main_worktree: string_of_opt(main_worktree),
        setup: string_of_opt(setup),
        volume_check: string_of_opt(volume_check),
    };
    store.save_app_config(cfg);
    let mut out = String::from_str("Defined app config '");
    push_str(&mut out, name);
    push_str(&mut out, "'");
    let in_bootstrap = str_contains(bootstrap, "FP_WORKTREE");
    let in_teardown = str_contains(teardown, "FP_WORKTREE");
    if !in_bootstrap && !in_teardown {
        push_str(&mut out, "\nWarning: neither bootstrap nor teardown mentions $FP_WORKTREE; the service will not know which worktree it serves");
    }
    out
}

// ---------------------------------------------------------------------------
// Status of an envelope, profiles, creation, merging

pub open spec fn merged_lines(rs: Seq<ProcessRecord>, name: Seq<char>, merged: Seq<u64>) -> Seq<char>
    decreases rs.len(),
{
    if rs.len() == 0 {
        seq![]
    } else {
        let r = rs.last();
        merged_lines(rs.drop_last(), name, merged) + if in_envelope(r, name) && merged.contains(r.pr) {
            "  PR #"@ + dec(r.pr as nat) + " (merged — remove with: fp feature remove "@ + name + " "@ + dec(r.pr as nat) + ")\n"@
        } else {
            seq![]
        }
    }
}

// ---------------------------------------------------------------------------
// The health column of `fp status --all`

/// The health of a pull request's services as `fp status --all` shows it: up
/// when its process is alive; else down, with a warning when a persistent
/// configuration's health check passes all the same (`r.pr` among `healthy`).
pub open spec fn status_label(store: AppConfigStore, r: ProcessRecord, live: Seq<u32>, healthy: Seq<u64>) -> Seq<char> {
    if crate::process::is_alive(r, live) {
        "✓ up"@
    } else if (match crate::feature::first_config(store, r) {
        Some(c) => !c.ephemeral && c.health_check is Some && healthy.contains(r.pr),
        None => false,
    }) {
        "✗ down — ⚠ healthy but untracked — another process may be listening"@
    } else {
        "✗ down"@
    }
}

/// The health column of pull request `pr`: none when it has no process record.
pub fn status_all_health(state: &ProcessState, config: &AppConfigStore, pr: u64, live: &[u32], healthy: &[u64])
    -> (r: Option<String>)
    ensures
        match record_of(state.records_view(), pr) {
            Some(x) => r matches Some(l) && l@ == status_label(*config, x, live@, healthy@),
            None => r is None,
        },
{
    match state.record(pr) {
        Some(x) => {
            if crate::feature::record_alive(x, live) {
                return Some(String::from_str("✓ up"));
            }
            let cfg = if x.app_config_names.len() > 0 {
                config.load_app_config(x.app_config_names[0].as_str())
            } else {
                None
            };
            let untracked = match cfg {
                Some(c) => !c.ephemeral && c.health_check.is_some() && crate::feature::contains_pr(healthy, x.pr),
                None => false,
            };
            if untracked {
                Some(String::from_str("✗ down — ⚠ healthy but untracked — another process may be listening"))
            } else {
                Some(String::from_str("✗ down"))
            }
        },
        None => None,
    }
}

// ---------------------------------------------------------------------------
// The health of an envelope, as text

pub open spec fn pid_word(s: PrHealthStatus) -> Seq<char> {
    if s.pid_alive { "✓ running"@ } else { "✗ stopped"@ }
}

pub open spec fn health_word(h: Option<bool>) -> Seq<char> {
    match h {
        Some(true) => " ✓ healthy"@,
        Some(false) => " ✗ unhealthy"@,
        None => seq![],
    }
}

pub open spec fn branch_word(b: Option<bool>) -> Seq<char> {
    match b {
        Some(true) => " ✓ branch ok"@,
        Some(false) => " ✗ wrong branch"@,
        None => seq![],
    }
}

pub open spec fn recovery_note(s: PrHealthStatus) -> Seq<char> {
    if !s.pid_alive && s.service_healthy == Some(true) {
        "\n    ⚠ healthy but untracked — another process may be listening"@
    } else if !s.pid_alive {
        "\n    (if your app daemonizes, fp cannot track it — keep the process in the foreground)"@
    } else {
        seq![]
    }
}

/// The app configurations of the record of `pr`, in brackets, where it has any.
pub open spec fn apps_note(rs: Seq<ProcessRecord>, pr: u64) -> Seq<char> {
    match record_of(rs, pr) {
        Some(r) => if r.app_config_names@.len() > 0 {
            " ["@ + join(sviews(r.app_config_names@), ", "@) + "]"@
        } else {
            seq![]
        },
        None => seq![],
    }
}

pub open spec fn member_line(rs: Seq<ProcessRecord>, s: PrHealthStatus) -> Seq<char> {
    "  PR #"@ + dec(s.pr as nat) + apps_note(rs, s.pr) + "  "@ + pid_word(s) + health_word(s.service_healthy)
        + branch_word(s.branch_ok) + recovery_note(s) + "\n"@
}

pub open spec fn member_lines(rs: Seq<ProcessRecord>, ss: Seq<PrHealthStatus>) -> Seq<char>
    decreases ss.len(),
{
    if ss.len() == 0 {
        seq![]
    } else {
        member_lines(rs, ss.drop_last()) + member_line(rs, ss.last())
    }
}

/// The health of a dependency instance: known when its configuration has a
/// health check, and passed when its key is among `healthy`.
pub open spec fn dep_health(store: AppConfigStore, k: Seq<char>, healthy: Seq<Seq<char>>) -> Option<bool> {
    match store.config(dep_cfg(k)) {
        Some(c) => if c.health_check is Some { Some(healthy.contains(k)) } else { None },
        None => None,
    }
}

pub open spec fn dep_lines(store: AppConfigStore, ks: Seq<Seq<char>>, healthy: Seq<Seq<char>>) -> Seq<char>
    decreases ks.len(),
{
    if ks.len() == 0 {
        seq![]
    } else {
        dep_lines(store, ks.drop_last(), healthy) + "  dep "@ + dep_cfg(ks.last()) + "  (shared)"@
            + health_word(dep_health(store, ks.last(), healthy)) + "\n"@
    }
}

pub open spec fn test_lines(cmd: Seq<char>, name: Seq<char>) -> Seq<char> {
    "  Test: "@ + cmd + "\n  Run: fp feature test "@ + name
}

/// The test command of envelope `name`, where it has one.
pub open spec fn test_of(state: ProcessState, name: Seq<char>) -> Option<Seq<char>> {
    match state.test_config(name) {
        Some(Some(c)) => Some(c),
        _ => None,
    }
}

/// What `fp feature status` prints for envelope `name`, from the status of
/// each member (`ss`) and the dependency instances whose health check passed.
pub open spec fn feature_status_text(state: ProcessState, store: AppConfigStore, name: Seq<char>,
    ss: Seq<PrHealthStatus>, dep_healthy: Seq<Seq<char>>) -> Seq<char>
{
    let ks = dep_keys_of(state.dep_entries(), name);
    if ss.len() == 0 && ks.len() == 0 {
        "Feature '"@ + name + "' has no member PRs."@ + match test_of(state, name) {
            Some(c) => "\n"@ + test_lines(c, name),
            None => seq![],
        }
    } else {
        trim_end(member_lines(state.records_view(), ss) + dep_lines(store, ks, dep_healthy)
            + match test_of(state, name) {
                Some(c) => test_lines(c, name) + "\n"@,
                None => seq![],
            })
    }
}

/// An envelope with no member records and no dependency instances, as a new
/// envelope is, and with a test command `c` answers that it has no member pull
/// requests, followed by how to run its test.
pub proof fn law_memberless_status_shows_test(state: ProcessState, store: AppConfigStore, name: Seq<char>,
    live: Seq<u32>, healthy: Seq<u64>, heads: Seq<(u64, String)>, dep_healthy: Seq<Seq<char>>, c: Seq<char>)
    requires
        forall|i: int| 0 <= i < state.records_view().len() ==> !in_envelope(#[trigger] state.records_view()[i], name),
        dep_keys_of(state.dep_entries(), name).len() == 0,
        state.test_config(name) == Some(Some(c)),
    ensures
        feature_status_text(state, store, name,
            member_statuses(store, state.records_view(), name, live, healthy, heads), dep_healthy)
            == "Feature '"@ + name + "' has no member PRs."@ + ("\n"@ + test_lines(c, name)),
{
    let rs = state.records_view();
    let e = Seq::<PrHealthStatus>::empty();
    assert forall|x: PrHealthStatus| e.contains(x) <==> is_member_status(store, rs, name, live, healthy, heads, x) by {
        if is_member_status(store, rs, name, live, healthy, heads, x) {
            let i = choose|i: int| 0 <= i < rs.len() && in_envelope(#[trigger] rs[i], name)
                && x == member_status(store, rs[i], live, healthy, heads);
            assert(!in_envelope(rs[i], name));
        }
    }
    assert(sorted_by_pr(e));
    let v = member_statuses(store, rs, name, live, healthy, heads);
    assert(sorted_by_pr(v) && forall|x: PrHealthStatus| v.contains(x) <==> is_member_status(store, rs, name, live, healthy, heads, x));
    if v.len() > 0 {
        assert(v.contains(v[0]));
        let x = v[0];
        let i = choose|i: int| 0 <= i < rs.len() && in_envelope(#[trigger] rs[i], name)
            && x == member_status(store, rs[i], live, healthy, heads);
        assert(!in_envelope(rs[i], name));
    }
}

fn push_apps_note(out: &mut String, state: &ProcessState, pr: u64)
    ensures
        final(out)@ == old(out)@ + apps_note(state.records_view(), pr),
{
    match state.record(pr) {
        Some(r) => if r.app_config_names.len() > 0 {
            push_str(out, " [");
            push_joined_strings(out, r.app_config_names.as_slice(), ", ");
            push_str(out, "]");
        },
        None => {},
    }
}

fn push_health_word(out: &mut String, h: Option<bool>)
    ensures
        final(out)@ == old(out)@ + health_word(h),
{
    match h {
        Some(true) => push_str(out, " ✓ healthy"),
        Some(false) => push_str(out, " ✗ unhealthy"),
        None => {},
    }
}

fn push_branch_word(out: &mut String, b: Option<bool>)
    ensures
        final(out)@ == old(out)@ + branch_word(b),
{
    match b {
        Some(true) => push_str(out, " ✓ branch ok"),
        Some(false) => push_str(out, " ✗ wrong branch"),
        None => {},
    }
}

fn push_recovery_note(out: &mut String, s: PrHealthStatus)
    ensures
        final(out)@ == old(out)@ + recovery_note(s),
{
    if !s.pid_alive && s.service_healthy == Some(true) {
        push_str(out, "\n    ⚠ healthy but untracked — another process may be listening");
    } else if !s.pid_alive {
        push_str(out, "\n    (if your app daemonizes, fp cannot track it — keep the process in the foreground)");
    }
}

fn push_member_line(out: &mut String, state: &ProcessState, s: PrHealthStatus)
    ensures
        final(out)@ == old(out)@ + member_line(state.records_view(), s),
{
    push_str(out, "  PR #");
    push_u64(out, s.pr);
    push_apps_note(out, state, s.pr);
    push_str(out, "  ");
    push_str(out, if s.pid_alive { "✓ running" } else { "✗ stopped" });
    push_health_word(out, s.service_healthy);
    push_branch_word(out, s.branch_ok);
    push_recovery_note(out, s);
    push_str(out, "\n");
}

fn push_dep_line(out: &mut String, config: &AppConfigStore, key: &str, cfg: &str, dep_healthy: &Vec<String>)
    requires
        cfg@ == dep_cfg(key@),
    ensures
        final(out)@ == old(out)@ + "  dep "@ + dep_cfg(key@) + "  (shared)"@
            + health_word(dep_health(*config, key@, sviews(dep_healthy@))) + "\n"@,
{
    push_str(out, "  dep ");
    push_str(out, cfg);
    push_str(out, "  (shared)");
    let h = match config.load_app_config(cfg) {
        Some(c) => if c.health_check.is_some() { Some(crate::feature::has_string(dep_healthy, key)) } else { None },
        None => None,
    };
    push_health_word(out, h);
    push_str(out, "\n");
}

fn push_test_lines(out: &mut String, cmd: &str, name: &str)
    ensures
        final(out)@ == old(out)@ + test_lines(cmd@, name@),
{
    push_str(out, "  Test: ");
    push_str(out, cmd);
    push_str(out, "\n  Run: fp feature test ");
    push_str(out, name);
}

/// What `fp feature status` prints for envelope `name`. What only the system
/// can tell comes as arguments: the live process ids, the pull requests whose
/// health check passed, the HEAD read in each member's worktree, and the keys
/// of the dependency instances whose health check passed.
pub fn cmd_feature_status(state: &ProcessState, config: &AppConfigStore, name: &str, live: &[u32], healthy: &[u64],
    heads: &[(u64, String)], dep_healthy: &Vec<String>) -> (r: String)
    ensures
        r@ == feature_status_text(*state, *config, name@,
            member_statuses(*config, state.records_view(), name@, live@, healthy@, heads@), sviews(dep_healthy@)),
{
    let statuses = feature_status(state, config, name, live, healthy, heads);
    let test = state.test_command(name);
    let deps = dep_slots(state, name);
    let ghost ks = dep_keys_of(state.dep_entries(), name@);
    assert(deps@.map_values(|e: (String, String, String)| e.0@).len() == deps@.len());
    if statuses.len() == 0 && deps.len() == 0 {
        let mut out = String::from_str("Feature '");
        push_str(&mut out, name);
        push_str(&mut out, "' has no member PRs.");
        if let Some(cmd) = &test {
            push_str(&mut out, "\n");
            push_test_lines(&mut out, cmd.as_str(), name);
        }
        return out;
    }
    let mut out = String::new();
    let mut i: usize = 0;
    assert(statuses@.take(0) =~= Seq::<PrHealthStatus>::empty());
    while i < statuses.len()
        invariant
            i <= statuses@.len(),
            out@ == member_lines(state.records_view(), statuses@.take(i as int)),
        decreases statuses@.len() - i,
    {
        push_member_line(&mut out, state, statuses[i]);
        let ghost next = statuses@.take(i + 1);
        assert(next.drop_last() =~= statuses@.take(i as int));
        assert(next.last() == statuses@[i as int]);
        i += 1;
    }
    assert(statuses@.take(statuses@.len() as int) =~= statuses@);
    let ghost o1 = out@;
    let mut j: usize = 0;
    assert(ks.take(0) =~= Seq::<Seq<char>>::empty());
    while j < deps.len()
        invariant
            j <= deps@.len(),
            deps@.map_values(|e: (String, String, String)| e.0@) == ks,
            forall|q: int| 0 <= q < deps@.len() ==> (#[trigger] deps@[q]).1@ == dep_cfg(deps@[q].0@),
            out@ == o1 + dep_lines(*config, ks.take(j as int), sviews(dep_healthy@)),
        decreases deps@.len() - j,
    {
        assert(ks[j as int] == deps@[j as int].0@);
        push_dep_line(&mut out, config, deps[j].0.as_str(), deps[j].1.as_str(), dep_healthy);
        let ghost next = ks.take(j + 1);
        assert(next.drop_last() =~= ks.take(j as int));
        assert(next.last() == ks[j as int]);
        j += 1;
    }
    assert(ks.take(deps@.len() as int) =~= ks);
    let ghost o2 = out@;
    if let Some(cmd) = &test {
        push_test_lines(&mut out, cmd.as_str(), name);
        push_str(&mut out, "\n");
    }
    assert(out@ =~= member_lines(state.records_view(), statuses@) + dep_lines(*config, ks, sviews(dep_healthy@))
        + match test_of(*state, name@) {
            Some(c) => test_lines(c, name@) + "\n"@,
            None => seq![],
        });
    trimmed_end(out.as_str())
}

/// What `fp feature status` prints for envelope `name` (see
/// `cmd_feature_status`), followed by a line for each member whose pull request
/// has been merged (among `merged`).
pub fn cmd_feature_status_with_client(state: &ProcessState, config: &AppConfigStore, name: &str, live: &[u32],
    healthy: &[u64], heads: &[(u64, String)], dep_healthy: &Vec<String>, merged: &[u64]) -> (r: String)
    ensures
        r@ == feature_status_text(*state, *config, name@,
            member_statuses(*config, state.records_view(), name@, live@, healthy@, heads@), sviews(dep_healthy@))
            + merged_lines(state.records_view(), name@, merged@),
{
    let mut out = cmd_feature_status(state, config, name, live, healthy, heads, dep_healthy);
    let ghost status_text = out@;
    let rs = state.records();
    let mut i: usize = 0;
    assert(rs@.take(0) =~= Seq::<ProcessRecord>::empty());
    while i < rs.len()
        invariant
            i <= rs@.len(),
            rs@ == state.records_view(),
            out@ == status_text + merged_lines(rs@.take(i as int), name@, merged@),
        decreases rs@.len() - i,
    {
        let ghost next = rs@.take(i + 1);
        assert(next.drop_last() =~= rs@.take(i as int));
        assert(next.last() == rs@[i as int]);
        let pr = rs[i].pr;
        if crate::process::record_in(&rs[i], name) && crate::feature::contains_pr(merged, pr) {
            push_str(&mut out, "  PR #");
            push_u64(&mut out, pr);
            push_str(&mut out, " (merged — remove with: fp feature remove ");
            push_str(&mut out, name);
            push_str(&mut out, " ");
            push_u64(&mut out, pr);
            push_str(&mut out, ")\n");
        }
        assert(out@ =~= status_text + merged_lines(next, name@, merged@));
        i += 1;
    }
    assert(rs@.take(rs@.len() as int) =~= rs@);
    out
}

/// What `fp profile` is asked to do.
pub enum ProfileAction {
    /// Save the token and repository under the profile `name`.
    Save { name: String, token: String, repo: String },
    /// Load the profile `name`.
    Load { name: String },
}

/// The profile action `action` with its arguments: saving needs a token and a
/// repository.
pub fn cmd_profile(action: &str, name: &str, token: Option<String>, repo: Option<String>) -> (r: Result<ProfileAction, String>)
    ensures
        action@ == "save"@ ==> match (token, repo) {
            (Some(t), Some(p)) => r matches Ok(ProfileAction::Save { name: n2, token: t2, repo: p2 })
                && n2@ == name@ && t2 == t && p2 == p,
            (None, _) => r matches Err(e) && e@ == "--token required for profile save"@,
            (Some(_), None) => r matches Err(e) && e@ == "--repo required for profile save"@,
        },
        action@ == "load"@ ==> (r matches Ok(ProfileAction::Load { name: n2 }) && n2@ == name@),
        action@ != "save"@ && action@ != "load"@ ==> (r matches Err(e) && e@ == "unknown profile action '"@ + action@ + "'; use save or load"@),
{
    proof {
        reveal_strlit("save");
        reveal_strlit("load");
        assert("save"@[0] != "load"@[0]);
    }
    if str_eq(action, "save") {
        let t = match token {
            Some(t) => t,
            None => return Err(String::from_str("--token required for profile save")),
        };
        let p = match repo {
            Some(p) => p,
            None => return Err(String::from_str("--repo required for profile save")),
        };
        Ok(ProfileAction::Save { name: copy_str(name), token: t, repo: p })
    } else if str_eq(action, "load") {
        Ok(ProfileAction::Load { name: copy_str(name) })
    } else {
        let mut e = String::from_str("unknown profile action '");
        push_str(&mut e, action);
        push_str(&mut e, "'; use save or load");
        Err(e)
    }
}

pub fn profile_saved_message(name: &str) -> (r: String)
    ensures
        r@ == "Profile '"@ + name@ + "' saved."@,
{
    let mut out = String::from_str("Profile '");
    push_str(&mut out, name);
    push_str(&mut out, "' saved.");
    out
}

pub fn profile_load_text(github_token: &str, repo: &str) -> (r: String)
    ensures
        r@ == "export GITHUB_TOKEN="@ + github_token@ + "\n# repo: "@ + repo@,
{
    let mut out = String::from_str("export GITHUB_TOKEN=");
    push_str(&mut out, github_token);
    push_str(&mut out, "\n# repo: ");
    push_str(&mut out, repo);
    out
}

/// What `fp create` is asked for: the new pull request's title, base and body,
/// and where to put it in the stack.
pub struct CreateOpts {
    pub title: String,
    pub base: String,
    pub body: Option<String>,
    pub restack_before: Option<u64>,
    pub insert_after: Option<u64>,
}

/// The pull request `fp create` asks GitHub to open.
pub struct CreateRequest {
    pub title: String,
    pub head: String,
    pub base: String,
    pub draft: bool,
    pub body: Option<String>,
}

/// The request for `opts` from `head_branch`: always a draft, with the given
/// title, base and body.
pub fn create_request(opts: &CreateOpts, head_branch: &str) -> (r: CreateRequest)
    ensures
        r.title@ == opts.title@,
        r.head@ == head_branch@,
        r.base@ == opts.base@,
        r.draft,
        crate::model::opt_view(r.body) == crate::model::opt_view(opts.body),
{
    CreateRequest {
        title: copy_str(opts.title.as_str()),
        head: copy_str(head_branch),
        base: copy_str(opts.base.as_str()),
        draft: true,
        body: match &opts.body {
            Some(b) => Some(copy_str(b.as_str())),
            None => None,
        },
    }
}

/// Track the pull request that `fp create` created and remember its title,
/// branch and base; the first line of the answer.
pub fn cmd_create(store: &mut TrackedPrs, created: &PrState) -> (r: String)
    ensures
        r@ == "Created PR #"@ + dec(created.number as nat) + ": "@ + created.title@ + " ("@ + created.branch@ + ")"@,
        final(store).is_tracked(created.number),
        forall|n: u64| n != created.number ==> final(store).is_tracked(n) == old(store).is_tracked(n),
        final(store).cache_view() == cache_without(old(store).cache_view(), created.number)
            .push(PrCache { number: created.number, title: created.title, branch: created.branch, base: created.base }),
{
    store.track(created.number);
    store.update_cache(PrCache {
        number: created.number,
        title: created.title.clone(),
        branch: created.branch.clone(),
        base: created.base.clone(),
    });
    let mut out = String::from_str("Created PR #");
    push_u64(&mut out, created.number);
    push_str(&mut out, ": ");
    push_str(&mut out, created.title.as_str());
    push_str(&mut out, " (");
    push_str(&mut out, created.branch.as_str());
    push_str(&mut out, ")");
    out
}

pub fn restacked_line(target_pr: u64, head_branch: &str, target_branch: &str) -> (r: String)
    ensures
        r@ == "\nRestacked PR #"@ + dec(target_pr as nat) + " onto "@ + head_branch@ + " (rebased "@ + target_branch@
            + " --onto "@ + head_branch@ + ")"@,
{
    let mut out = String::from_str("\nRestacked PR #");
    push_u64(&mut out, target_pr);
    push_str(&mut out, " onto ");
    push_str(&mut out, head_branch);
    push_str(&mut out, " (rebased ");
    push_str(&mut out, target_branch);
    push_str(&mut out, " --onto ");
    push_str(&mut out, head_branch);
    push_str(&mut out, ")");
    out
}

pub fn inserted_line(head_branch: &str, anchor_pr: u64, next_pr: u64) -> (r: String)
    ensures
        r@ == "\nInserted "@ + head_branch@ + " between PR #"@ + dec(anchor_pr as nat) + " and PR #"@ + dec(next_pr as nat),
{
    let mut out = String::from_str("\nInserted ");
    push_str(&mut out, head_branch);
    push_str(&mut out, " between PR #");
    push_u64(&mut out, anchor_pr);
    push_str(&mut out, " and PR #");
    push_u64(&mut out, next_pr);
    out
}

pub fn nothing_to_restack_line(anchor_branch: &str) -> (r: String)
    ensures
        r@ == "\nNo tracked PR found with base "@ + anchor_branch@ + "; nothing to restack"@,
{
    let mut out = String::from_str("\nNo tracked PR found with base ");
    push_str(&mut out, anchor_branch);
    push_str(&mut out, "; nothing to restack");
    out
}

/// `fp merge` once GitHub merged `pr` as commit `merge_sha`: the merged line,
/// the report of rebasing what stood on it (`downstream`, empty when nothing
/// did), then the cleanup of `merge_cleanup`.
pub fn cmd_merge(store: &mut TrackedPrs, state: &mut ProcessState, pr: u64, merge_sha: &str, downstream: &str)
    -> (r: String)
    ensures
        merge_cleaned(*old(store), *final(store), *old(state), *final(state), pr),
        r@ == "✓ merged PR #"@ + dec(pr as nat) + " ("@ + merge_sha@ + ")\n"@ + downstream@
            + cleanup_text(*old(state), *final(state), pr),
{
    let mut out = String::from_str("✓ merged PR #");
    push_u64(&mut out, pr);
    push_str(&mut out, " (");
    push_str(&mut out, merge_sha);
    push_str(&mut out, ")\n");
    push_str(&mut out, downstream);
    let cleanup = merge_cleanup(store, state, pr);
    push_str(&mut out, cleanup.as_str());
    out
}

/// Each other tracked pull request's branch with its base.
pub fn downstream_bases(caches: &[PrCache], merged_pr: u64) -> (r: Vec<(String, String)>)
    ensures
        r@.map_values(|e: (String, String)| (e.0@, e.1@)) == caches@.filter(|c: PrCache| c.number != merged_pr)
            .map_values(|c: PrCache| (c.branch@, c.base@)),
{
    let ghost pred = |c: PrCache| c.number != merged_pr;
    let mut r: Vec<(String, String)> = Vec::new();
    let mut i: usize = 0;
    while i < caches.len()
        invariant
            i <= caches@.len(),
            pred == (|c: PrCache| c.number != merged_pr),
            r@.map_values(|e: (String, String)| (e.0@, e.1@)) == caches@.take(i as int).filter(pred)
                .map_values(|c: PrCache| (c.branch@, c.base@)),
        decreases caches@.len() - i,
    {
        let ghost before = caches@.take(i as int).filter(pred);
        let ghost rv = r@.map_values(|e: (String, String)| (e.0@, e.1@));
        proof { crate::keyed::lemma_filter_take(caches@, pred, i as int); }
        if caches[i].number != merged_pr {
            r.push((copy_str(caches[i].branch.as_str()), copy_str(caches[i].base.as_str())));
            assert(r@.map_values(|e: (String, String)| (e.0@, e.1@)) =~= rv.push((caches@[i as int].branch@, caches@[i as int].base@)));
            assert(before.push(caches@[i as int]).map_values(|c: PrCache| (c.branch@, c.base@))
                =~= before.map_values(|c: PrCache| (c.branch@, c.base@)).push((caches@[i as int].branch@, caches@[i as int].base@)));
        }
        i += 1;
    }
    assert(caches@.take(caches@.len() as int) =~= caches@);
    r
}

/// Whether some branch is based on `merged_branch`.
pub fn has_downstream(bases: &Vec<(String, String)>, merged_branch: &str) -> (b: bool)
    ensures
        b == exists|i: int| 0 <= i < bases@.len() && (#[trigger] bases@[i]).1@ == merged_branch@,
{
    let mut i: usize = 0;
    while i < bases.len()
        invariant
            i <= bases@.len(),
            forall|j: int| 0 <= j < i ==> (#[trigger] bases@[j]).1@ != merged_branch@,
        decreases bases@.len() - i,
    {
        if str_eq(bases[i].1.as_str(), merged_branch) {
            return true;
        }
        i += 1;
    }
    false
}

/// The report `fp merge` gives once `pr` is merged and left its envelope:
/// that it is no longer tracked, and which envelope it left.
pub open spec fn cleanup_text(p0: ProcessState, p1: ProcessState, pr: u64) -> Seq<char> {
    "✓ untracked PR #"@ + dec(pr as nat) + "\n"@ + match record_of(p0.records_view(), pr) {
        Some(rec) => match envelope_of(rec) {
            Some(e) => leave_message(pr, e, members(p1.records_view(), e).len()),
            None => Seq::<char>::empty(),
        },
        None => Seq::<char>::empty(),
    }
}

/// What cleaning up after the merge of `pr` does: `pr` is no longer tracked
/// and its details are forgotten; its record is dropped; the envelope it
/// belonged to is deleted when no member is left; nothing else changes.
pub open spec fn merge_cleaned(s0: TrackedPrs, s1: TrackedPrs, p0: ProcessState, p1: ProcessState, pr: u64) -> bool {
    &&& !s1.is_tracked(pr)
    &&& s1.numbers_view() == numbers_without(s0.numbers_view(), pr)
    &&& s1.cache_view() == cache_without(s0.cache_view(), pr)
    &&& record_of(p1.records_view(), pr) is None
    &&& forall|x: ProcessRecord| p1.records_view().contains(x) <==> (p0.records_view().contains(x) && x.pr != pr)
    &&& match record_of(p0.records_view(), pr) {
        Some(rec) => match envelope_of(rec) {
            Some(e) => {
                &&& (p1.has_envelope(e) <==> (p0.has_envelope(e) && members(p1.records_view(), e).len() > 0))
                &&& forall|n: Seq<char>| n != e ==> p1.has_envelope(n) == p0.has_envelope(n)
            },
            None => forall|n: Seq<char>| p1.has_envelope(n) == p0.has_envelope(n),
        },
        None => forall|n: Seq<char>| p1.has_envelope(n) == p0.has_envelope(n),
    }
    &&& forall|k: Seq<char>| p1.dep_record(k) == p0.dep_record(k)
    &&& p1.dep_entries() == p0.dep_entries()
    &&& forall|k: Seq<char>| p1.deps_of(k) == p0.deps_of(k)
    &&& forall|k: Seq<char>| p1.test_config(k) == p0.test_config(k)
}

/// After `fp merge` merged `pr`: stop tracking it, drop its record, and take it
/// out of its envelope (deleting the envelope when it was the last member); the
/// lines that report this.
pub fn merge_cleanup(store: &mut TrackedPrs, state: &mut ProcessState, pr: u64) -> (r: String)
    ensures
        merge_cleaned(*old(store), *final(store), *old(state), *final(state), pr),
        r@ == cleanup_text(*old(state), *final(state), pr),
{
    store.untrack(pr);
    let mut out = untracked_line(pr);
    let ghost s0 = *state;
    match leave_envelope(state, pr) {
        Some((e, remaining)) => {
            let line = envelope_leave_message(pr, e.as_str(), remaining);
            push_str(&mut out, line.as_str());
        },
        None => {},
    }
    proof {
        match record_of(s0.records_view(), pr) {
            Some(rec) => match envelope_of(rec) {
                Some(e) => {},
                None => { assert(out@ =~= cleanup_text(s0, *state, pr)); },
            },
            None => { assert(out@ =~= cleanup_text(s0, *state, pr)); },
        }
    }
    out
}

/// Whether details of `pr` are remembered, as for every pull request `fp`
/// tracks.
pub open spec fn is_cached(cache: Seq<PrCache>, pr: u64) -> bool {
    exists|j: int| 0 <= j < cache.len() && (#[trigger] cache[j]).number == pr
}

pub open spec fn not_tracked_message(pr: u64) -> Seq<char> {
    "PR #"@ + dec(pr as nat) + " is not tracked. Run `fp track "@ + dec(pr as nat) + "`"@
}

/// `fp threads` for open threads: the open and stale threads among `threads`
/// (those of the fetched pull request; none when it could not be fetched), or
/// an error when `pr` is not tracked.
pub fn cmd_threads(store: &TrackedPrs, pr: u64, threads: &Vec<Thread>) -> (r: Result<String, String>)
    ensures
        r is Err <==> !is_cached(store.cache_view(), pr),
        r matches Err(e) ==> e@ == not_tracked_message(pr),
        r matches Ok(s) ==> exists|ts: Seq<&Thread>|
            ref_models(ts) == thread_models(threads@).filter(|t: ThreadModel| is_open_state(t.state))
            && s@ == spec_open_threads(pr, ts),
{
    let cache = store.cache();
    let mut i: usize = 0;
    let mut found = false;
    while i < cache.len()
        invariant
            i <= cache@.len(),
            !found ==> forall|j: int| 0 <= j < i ==> (#[trigger] cache@[j]).number != pr,
            found ==> is_cached(cache@, pr),
        decreases cache@.len() - i,
    {
        if cache[i].number == pr {
            found = true;
        }
        i += 1;
    }
    if !found {
        let mut e = String::from_str("PR #");
        push_u64(&mut e, pr);
        push_str(&mut e, " is not tracked. Run `fp track ");
        push_u64(&mut e, pr);
        push_str(&mut e, "`");
        return Err(e);
    }
    let open = crate::display::fetch_open_threads(threads);
    let out = crate::display::format_open_threads(pr, open.as_slice());
    assert(ref_models(open@) == thread_models(threads@).filter(|t: ThreadModel| is_open_state(t.state))
        && out@ == spec_open_threads(pr, open@));
    Ok(out)
}

/// The answer of `fp rebase-stack` when nothing is tracked; nothing when there
/// is a stack to rebase.
pub fn rebase_stack_nothing_tracked(store: &TrackedPrs) -> (r: Option<String>)
    ensures
        r is Some <==> store.numbers_view().len() == 0,
        r matches Some(m) ==> m@ == "No tracked PRs.\n"@,
{
    if store.numbers().len() == 0 {
        Some(String::from_str("No tracked PRs.\n"))
    } else {
        None
    }
}

pub fn untracked_line(pr: u64) -> (r: String)
    ensures
        r@ == "✓ untracked PR #"@ + dec(pr as nat) + "\n"@,
{
    let mut out = String::from_str("✓ untracked PR #");
    push_u64(&mut out, pr);
    push_str(&mut out, "\n");
    out
}


// ---------------------------------------------------------------------------
// Rebasing a stack: the report

/// A line per branch: `{marker}{branch}{tail}`.
pub open spec fn branch_lines(bs: Seq<Seq<char>>, marker: Seq<char>, tail: Seq<char>) -> Seq<char>
    decreases bs.len(),
{
    if bs.len() == 0 {
        seq![]
    } else {
        branch_lines(bs.drop_last(), marker, tail) + marker + bs.last() + tail
    }
}

/// The hint for a conflict on `b`, on a line of its own where there is one.
pub open spec fn conflict_hint_line(prs: Seq<PrCache>, b: Seq<char>) -> Seq<char> {
    match crate::display::pr_on_branch(prs, b) {
        Some(n) => "  Tip: fps "@ + dec(n as nat) + " to switch to its worktree"@ + "\n"@,
        None => seq![],
    }
}

pub open spec fn conflict_lines(bs: Seq<Seq<char>>, prs: Seq<PrCache>) -> Seq<char>
    decreases bs.len(),
{
    if bs.len() == 0 {
        seq![]
    } else {
        conflict_lines(bs.drop_last(), prs) + "✗ conflict on "@ + bs.last() + " — resolve manually\n"@
            + conflict_hint_line(prs, bs.last())
    }
}

/// What `fp rebase-stack` reports of a rebase: the branches rebased, those in
/// conflict (each with a hint to the worktree of its pull request among `prs`),
/// the git status where one was taken, the warnings, and that the stack is up to
/// date when nothing was rebased and nothing conflicted.
pub open spec fn spec_rebase_report(rebased: Seq<Seq<char>>, conflicts: Seq<Seq<char>>, prs: Seq<PrCache>,
    status: Option<Seq<char>>, warnings: Seq<Seq<char>>) -> Seq<char>
{
    branch_lines(rebased, "✓ rebased "@, "\n"@)
        + conflict_lines(conflicts, prs)
        + match status { Some(st) => "\ngit status:\n"@ + st + "\n"@, None => seq![] }
        + branch_lines(warnings, "⚠ "@, "\n"@)
        + if rebased.len() == 0 && conflicts.len() == 0 { "Stack is already up to date.\n"@ } else { seq![] }
}

fn push_branch_lines(out: &mut String, bs: &[String], marker: &str, tail: &str)
    ensures
        final(out)@ == old(out)@ + branch_lines(sviews(bs@), marker@, tail@),
{
    let ghost o0 = out@;
    let ghost vs = sviews(bs@);
    let mut i: usize = 0;
    assert(vs.take(0) =~= Seq::<Seq<char>>::empty());
    while i < bs.len()
        invariant
            i <= bs@.len(),
            vs == sviews(bs@),
            out@ == o0 + branch_lines(vs.take(i as int), marker@, tail@),
        decreases bs@.len() - i,
    {
        push_str(out, marker);
        push_str(out, bs[i].as_str());
        push_str(out, tail);
        let ghost next = vs.take(i + 1);
        assert(next.drop_last() =~= vs.take(i as int));
        assert(next.last() == bs@[i as int]@);
        i += 1;
    }
    assert(vs.take(bs@.len() as int) =~= vs);
}

/// The report of a rebase of the stack (see `spec_rebase_report`).
pub fn rebase_report(rebased: &[String], conflicts: &[String], prs: &[PrCache], status: Option<&str>,
    warnings: &[String]) -> (r: String)
    ensures
        r@ == spec_rebase_report(sviews(rebased@), sviews(conflicts@), prs@, crate::display::opt_str(status),
            sviews(warnings@)),
{
    let mut out = String::new();
    push_branch_lines(&mut out, rebased, "✓ rebased ", "\n");
    let ghost o1 = out@;
    let ghost cs = sviews(conflicts@);
    let mut i: usize = 0;
    assert(cs.take(0) =~= Seq::<Seq<char>>::empty());
    while i < conflicts.len()
        invariant
            i <= conflicts@.len(),
            cs == sviews(conflicts@),
            out@ == o1 + conflict_lines(cs.take(i as int), prs@),
        decreases conflicts@.len() - i,
    {
        push_str(&mut out, "✗ conflict on ");
        push_str(&mut out, conflicts[i].as_str());
        push_str(&mut out, " — resolve manually\n");
        let hint = crate::display::format_conflict_hint(conflicts[i].as_str(), prs);
        proof { reveal_strlit("  Tip: fps "); }
        if !hint.as_str().is_empty() {
            push_str(&mut out, hint.as_str());
            push_str(&mut out, "\n");
        }
        let ghost next = cs.take(i + 1);
        assert(next.drop_last() =~= cs.take(i as int));
        assert(next.last() == conflicts@[i as int]@);
        i += 1;
    }
    assert(cs.take(conflicts@.len() as int) =~= cs);
    if let Some(st) = status {
        push_str(&mut out, "\ngit status:\n");
        push_str(&mut out, st);
        push_str(&mut out, "\n");
    }
    push_branch_lines(&mut out, warnings, "⚠ ", "\n");
    if rebased.len() == 0 && conflicts.len() == 0 {
        push_str(&mut out, "Stack is already up to date.\n");
    }
    out
}

/// The lines that report the branches skipped because a branch they stack on
/// is locked.
pub fn locked_skip_lines(skipped: &[String]) -> (r: String)
    ensures
        r@ == branch_lines(sviews(skipped@), "⚠ skipping "@, " — parent branch is locked\n"@),
{
    let mut out = String::new();
    push_branch_lines(&mut out, skipped, "⚠ skipping ", " — parent branch is locked\n");
    out
}

} // verus!
