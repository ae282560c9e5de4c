//! What `fp ls`, `fp status`, `fp status --all`, `fp watch`, `fp switch` and
//! the merged-PR part of `fp rebase-stack` decide, from the tracked pull
//! requests and what the caller read from git, GitHub and the process state.
//! The stack order (each pull request with its tree prefix) and the tasks of
//! each pull request come as arguments.
use vstd::prelude::*;
use crate::model::PrCache;
use crate::tasks::{Task, copy_task, wait_condition_met, is_wait_condition_met};
use crate::tracking::{TrackedPrs, cached_of};
use crate::worktree::{worktree_path, worktree_path_of, held_back, is_held_back};
use crate::keyed::lemma_filter_take;
use crate::text::sviews;
use crate::commands::{branch_lines, locked_skip_lines};
use crate::text::{push_str, push_u64, dec, str_eq};
use crate::display::{
    repo_header, format_single_pr_status, format_pr_status_all_entry, spec_single_pr_status, spec_status_all_entry,
    opt_str, format_watch_initial_state, spec_watch_initial_state, watch_event_lines, new_task_lines,
    resolved_task_lines, watch_notification_messages, notes, notification_title, note_views, format_adopt_message,
};
use crate::model::opt_view;
use crate::commands::{not_tracked_message, status_all_health, status_label};
use crate::process::{ProcessState, record_of};
use crate::app_config::AppConfigStore;

verus! {

// ---------------------------------------------------------------------------
// fp ls

/// A line per pull request of `order` whose details are remembered:
/// `{prefix}#{number} {title} ({branch})`.
pub open spec fn ls_entries(order: Seq<(u64, String)>, cache: Seq<PrCache>) -> Seq<char>
    decreases order.len(),
{
    if order.len() == 0 {
        Seq::empty()
    } else {
        ls_entries(order.drop_last(), cache) + match cached_of(cache, order.last().0) {
            Some(c) => order.last().1@ + "#"@ + dec(c.number as nat) + " "@ + c.title@ + " ("@ + c.branch@ + ")\n"@,
            None => Seq::empty(),
        }
    }
}

/// What `fp ls` prints: the repository, then each tracked pull request in
/// stack order, or a hint when nothing is tracked.
pub open spec fn spec_ls(numbers: Seq<u64>, cache: Seq<PrCache>, owner: Seq<char>, repo: Seq<char>,
    order: Seq<(u64, String)>) -> Seq<char>
{
    owner + "/"@ + repo + "\n"@ + if numbers.len() == 0 {
        "No tracked PRs. Use `fp track <pr>` to add one."@
    } else {
        ls_entries(order, cache)
    }
}

/// `fp ls` over the tracked pull requests, given their stack order (each
/// number with its tree prefix).
pub fn cmd_ls(store: &TrackedPrs, owner: &str, repo: &str, order: &Vec<(u64, String)>) -> (r: String)
    ensures
        r@ == spec_ls(store.numbers_view(), store.cache_view(), owner@, repo@, order@),
{
    let mut out = repo_header(owner, repo);
    push_str(&mut out, "\n");
    if store.numbers().len() == 0 {
        push_str(&mut out, "No tracked PRs. Use `fp track <pr>` to add one.");
        return out;
    }
    let ghost head = out@;
    let mut i: usize = 0;
    assert(order@.take(0) =~= Seq::<(u64, String)>::empty());
    while i < order.len()
        invariant
            i <= order@.len(),
            out@ == head + ls_entries(order@.take(i as int), store.cache_view()),
        decreases order@.len() - i,
    {
        assert(order@.take(i + 1).drop_last() =~= order@.take(i as int));
        match store.cached(order[i].0) {
            Some(c) => {
                push_str(&mut out, order[i].1.as_str());
                push_str(&mut out, "#");
                push_u64(&mut out, c.number);
                push_str(&mut out, " ");
                push_str(&mut out, c.title.as_str());
                push_str(&mut out, " (");
                push_str(&mut out, c.branch.as_str());
                push_str(&mut out, ")\n");
            },
            None => {},
        }
        i += 1;
    }
    assert(order@.take(order@.len() as int) =~= order@);
    out
}

// ---------------------------------------------------------------------------
// fp status

/// `fp status <pr>`: the tasks of `pr` (`tasks`, derived from its fetched or
/// remembered state), with the lock held on its branch and its state tags; an
/// error when `pr` is not tracked.
pub fn cmd_status_one(store: &TrackedPrs, pr: u64, tasks: &[Task], lock: Option<&str>, is_closed: bool,
    is_merged: bool, draft: bool) -> (r: Result<String, String>)
    ensures
        r is Err <==> cached_of(store.cache_view(), pr) is None,
        r matches Err(e) ==> e@ == not_tracked_message(pr),
        r matches Ok(s) ==> s@ == spec_single_pr_status(pr, tasks@, opt_str(lock), is_closed, is_merged, draft),
{
    match store.cached(pr) {
        None => {
            let mut e = String::from_str("PR #");
            push_u64(&mut e, pr);
            push_str(&mut e, " is not tracked. Run `fp track ");
            push_u64(&mut e, pr);
            push_str(&mut e, "`");
            Err(e)
        },
        Some(_) => Ok(format_single_pr_status(pr, tasks, lock, is_closed, is_merged, draft)),
    }
}

/// What `fp status --all` knows of one pull request beyond its remembered
/// details: its tasks, the lock text shown after it, and its state tags.
pub struct StatusInput {
    pub number: u64,
    pub tasks: Vec<Task>,
    pub lock: String,
    pub is_closed: bool,
    pub is_merged: bool,
    pub draft: bool,
}

/// The first input given for `n`.
pub open spec fn input_of(inputs: Seq<StatusInput>, n: u64) -> Option<StatusInput>
    decreases inputs.len(),
{
    if inputs.len() == 0 {
        None
    } else if inputs[0].number == n {
        Some(inputs[0])
    } else {
        input_of(inputs.drop_first(), n)
    }
}

/// The health label of `n`'s services, when it has a process record.
pub open spec fn health_of(state: ProcessState, config: AppConfigStore, n: u64, live: Seq<u32>, healthy: Seq<u64>)
    -> Option<Seq<char>>
{
    match record_of(state.records_view(), n) {
        Some(x) => Some(status_label(config, x, live, healthy)),
        None => None,
    }
}

/// The entry of one pull request in `fp status --all`; with no input given for
/// it, no tasks, no lock and no tags.
pub open spec fn status_entry(prefix: Seq<char>, c: PrCache, input: Option<StatusInput>, health: Option<Seq<char>>)
    -> Seq<char>
{
    match input {
        Some(i) => spec_status_all_entry(prefix, c.number, c.title@, i.tasks@, i.lock@, health, i.is_closed,
            i.is_merged, i.draft),
        None => spec_status_all_entry(prefix, c.number, c.title@, Seq::empty(), Seq::empty(), health, false, false,
            false),
    }
}

pub open spec fn status_entries(order: Seq<(u64, String)>, cache: Seq<PrCache>, inputs: Seq<StatusInput>,
    state: ProcessState, config: AppConfigStore, live: Seq<u32>, healthy: Seq<u64>) -> Seq<char>
    decreases order.len(),
{
    if order.len() == 0 {
        Seq::empty()
    } else {
        let n = order.last().0;
        status_entries(order.drop_last(), cache, inputs, state, config, live, healthy) + match cached_of(cache, n) {
            Some(c) => status_entry(order.last().1@, c, input_of(inputs, n), health_of(state, config, n, live, healthy)),
            None => Seq::empty(),
        }
    }
}

/// What `fp status --all` prints: the repository, then an entry per tracked
/// pull request in stack order.
pub open spec fn spec_status_all(cache: Seq<PrCache>, owner: Seq<char>, repo: Seq<char>, order: Seq<(u64, String)>,
    inputs: Seq<StatusInput>, state: ProcessState, config: AppConfigStore, live: Seq<u32>, healthy: Seq<u64>)
    -> Seq<char>
{
    owner + "/"@ + repo + "\n"@ + status_entries(order, cache, inputs, state, config, live, healthy)
}

fn find_input(inputs: &Vec<StatusInput>, n: u64) -> (r: Option<&StatusInput>)
    ensures
        match r {
            Some(x) => input_of(inputs@, n) == Some(*x),
            None => input_of(inputs@, n) is None,
        },
{
    let mut i: usize = 0;
    assert(inputs@.skip(0) =~= inputs@);
    while i < inputs.len()
        invariant
            i <= inputs@.len(),
            input_of(inputs@, n) == input_of(inputs@.skip(i as int), n),
        decreases inputs@.len() - i,
    {
        assert(inputs@.skip(i as int)[0] == inputs@[i as int]);
        assert(inputs@.skip(i as int).drop_first() =~= inputs@.skip(i + 1));
        if inputs[i].number == n {
            return Some(&inputs[i]);
        }
        i += 1;
    }
    None
}

pub open spec fn opt_input(v: Option<&StatusInput>) -> Option<StatusInput> {
    match v {
        Some(x) => Some(*x),
        None => None,
    }
}

fn status_entry_text(prefix: &str, c: &PrCache, input: Option<&StatusInput>, health: Option<&str>) -> (r: String)
    ensures
        r@ == status_entry(prefix@, *c, opt_input(input), opt_str(health)),
{
    match input {
        Some(i) => {
            let ts = i.tasks.as_slice();
            assert(ts@ == i.tasks@);
            let r = format_pr_status_all_entry(prefix, c.number, c.title.as_str(), ts, i.lock.as_str(),
                health, i.is_closed, i.is_merged, i.draft);
            assert(r@ == spec_status_all_entry(prefix@, c.number, c.title@, i.tasks@, i.lock@, opt_str(health), i.is_closed,
                i.is_merged, i.draft));
            assert(opt_input(input) == Some(*i));
            r
        },
        None => {
            let none: Vec<Task> = Vec::new();
            let ts = none.as_slice();
            assert(ts@ =~= Seq::<Task>::empty());
            let r = format_pr_status_all_entry(prefix, c.number, c.title.as_str(), ts, "", health, false,
                false, false);
            proof { reveal_strlit(""); }
            r
        },
    }
}

/// `fp status --all`: an entry per tracked pull request in stack order (each
/// number with its tree prefix), from its remembered details, what was read of
/// it (`inputs`), and the health of its services (live pids, pull requests
/// whose health check passed).
pub fn status_all_text(store: &TrackedPrs, state: &ProcessState, config: &AppConfigStore, owner: &str, repo: &str,
    order: &Vec<(u64, String)>, inputs: &Vec<StatusInput>, live: &[u32], healthy: &[u64]) -> (r: String)
    ensures
        r@ == spec_status_all(store.cache_view(), owner@, repo@, order@, inputs@, *state, *config, live@, healthy@),
{
    let mut out = repo_header(owner, repo);
    push_str(&mut out, "\n");
    let ghost head = out@;
    let mut i: usize = 0;
    assert(order@.take(0) =~= Seq::<(u64, String)>::empty());
    while i < order.len()
        invariant
            i <= order@.len(),
            out@ == head + status_entries(order@.take(i as int), store.cache_view(), inputs@, *state, *config, live@,
                healthy@),
        decreases order@.len() - i,
    {
        assert(order@.take(i + 1).drop_last() =~= order@.take(i as int));
        let n = order[i].0;
        match store.cached(n) {
            Some(c) => {
                let health = status_all_health(state, config, n, live, healthy);
                let h: Option<&str> = match &health {
                    Some(s) => Some(s.as_str()),
                    None => None,
                };
                assert(opt_str(h) == health_of(*state, *config, n, live@, healthy@));
                let entry = status_entry_text(order[i].1.as_str(), c, find_input(inputs, n), h);
                push_str(&mut out, entry.as_str());
            },
            None => {},
        }
        i += 1;
    }
    assert(order@.take(order@.len() as int) =~= order@);
    out
}

// ---------------------------------------------------------------------------
// fp watch

/// One tracked pull request in a pass of `fp watch`: its details, the lock on
/// its branch, its tasks now, and the tasks that appeared and went away since
/// the previous pass.
pub struct WatchPr {
    pub number: u64,
    pub title: String,
    pub prefix: String,
    pub lock: Option<String>,
    pub tasks: Vec<Task>,
    pub new: Vec<Task>,
    pub resolved: Vec<Task>,
}

/// What a pass of `fp watch` decides: the pull requests seen so far, the text
/// to print, the notifications to show, and whether to stop.
pub struct WatchStep {
    pub seen: Vec<u64>,
    pub text: String,
    pub notes: Vec<(String, String)>,
    pub stop: bool,
}

/// The text of a pass: for a pull request seen in an earlier pass, its new and
/// resolved tasks; for one seen the first time, its initial state.
pub open spec fn watch_text(seen: Seq<u64>, prs: Seq<WatchPr>) -> Seq<char>
    decreases prs.len(),
{
    if prs.len() == 0 {
        Seq::empty()
    } else {
        let p = prs.last();
        watch_text(seen, prs.drop_last()) + if seen.contains(p.number) {
            new_task_lines(p.number, p.new@) + resolved_task_lines(p.number, p.resolved@)
        } else {
            spec_watch_initial_state(p.number, p.title@, p.tasks@, opt_view(p.lock), p.prefix@)
        }
    }
}

/// The notifications of a pass: those of each pull request seen in an earlier
/// pass, for its resolved and then its new tasks.
pub open spec fn watch_notes(seen: Seq<u64>, prs: Seq<WatchPr>) -> Seq<(Seq<char>, Seq<char>)>
    decreases prs.len(),
{
    if prs.len() == 0 {
        Seq::empty()
    } else {
        let p = prs.last();
        watch_notes(seen, prs.drop_last()) + if seen.contains(p.number) {
            notes(p.resolved@, notification_title(p.number), true) + notes(p.new@, notification_title(p.number), false)
        } else {
            Seq::empty()
        }
    }
}

/// The tasks of all pull requests of a pass, in order.
pub open spec fn all_tasks(prs: Seq<WatchPr>) -> Seq<Task>
    decreases prs.len(),
{
    if prs.len() == 0 {
        Seq::empty()
    } else {
        all_tasks(prs.drop_last()) + prs.last().tasks@
    }
}

/// The pull requests seen after a pass: those seen before, then each newly
/// seen one once.
pub open spec fn seen_after(seen: Seq<u64>, prs: Seq<WatchPr>) -> Seq<u64>
    decreases prs.len(),
{
    if prs.len() == 0 {
        seen
    } else {
        let s = seen_after(seen, prs.drop_last());
        if s.contains(prs.last().number) { s } else { s.push(prs.last().number) }
    }
}

/// Whether `fp watch` stops after a pass: after one pass with `--once`, or
/// when the tasks of all pull requests meet the `--wait-for` condition.
pub open spec fn watch_stops(prs: Seq<WatchPr>, once: bool, wait_for: Option<Seq<char>>) -> bool {
    once || match wait_for {
        Some(c) => wait_condition_met(c, all_tasks(prs)),
        None => false,
    }
}

/// A pass of `fp watch` over the tracked pull requests (in stack order, each
/// number once), given the pull requests seen in earlier passes.
pub fn watch_step(seen: &Vec<u64>, prs: &Vec<WatchPr>, once: bool, wait_for: Option<&str>) -> (r: WatchStep)
    ensures
        r.seen@ == seen_after(seen@, prs@),
        r.text@ == watch_text(seen@, prs@),
        note_views(r.notes@) == watch_notes(seen@, prs@),
        r.stop == watch_stops(prs@, once, opt_str(wait_for)),
{
    let mut text = String::new();
    let mut msgs: Vec<(String, String)> = Vec::new();
    let mut all: Vec<Task> = Vec::new();
    let mut now: Vec<u64> = seen.clone();
    let mut i: usize = 0;
    assert(prs@.take(0) =~= Seq::<WatchPr>::empty());
    assert(note_views(msgs@) =~= Seq::<(Seq<char>, Seq<char>)>::empty());
    while i < prs.len()
        invariant
            i <= prs@.len(),
            now@ == seen_after(seen@, prs@.take(i as int)),
            text@ == watch_text(seen@, prs@.take(i as int)),
            note_views(msgs@) == watch_notes(seen@, prs@.take(i as int)),
            all@ == all_tasks(prs@.take(i as int)),
        decreases prs@.len() - i,
    {
        assert(prs@.take(i + 1).drop_last() =~= prs@.take(i as int));
        assert(prs@.take(i + 1).last() == prs@[i as int]);
        let p = &prs[i];
        let mut known = false;
        let mut k: usize = 0;
        while k < seen.len()
            invariant
                k <= seen@.len(),
                !known ==> forall|j: int| 0 <= j < k ==> seen@[j] != p.number,
                known ==> seen@.contains(p.number),
            decreases seen@.len() - k,
        {
            if seen[k] == p.number {
                known = true;
            }
            k += 1;
        }
        if known {
            let lines = watch_event_lines(p.number, p.new.as_slice(), p.resolved.as_slice());
            push_str(&mut text, lines.as_str());
            let ns = watch_notification_messages(p.number, p.new.as_slice(), p.resolved.as_slice());
            let ghost before = msgs@;
            let mut j: usize = 0;
            while j < ns.len()
                invariant
                    j <= ns@.len(),
                    msgs@ == before + ns@.take(j as int),
                decreases ns@.len() - j,
            {
                msgs.push((ns[j].0.clone(), ns[j].1.clone()));
                assert(ns@.take(j + 1) =~= ns@.take(j as int).push(ns@[j as int]));
                j += 1;
            }
            assert(ns@.take(ns@.len() as int) =~= ns@);
            assert(note_views(before + ns@) =~= note_views(before) + note_views(ns@));
        } else {
            let lock: Option<&str> = match &p.lock {
                Some(s) => Some(s.as_str()),
                None => None,
            };
            assert(opt_str(lock) == opt_view(p.lock));
            let init = format_watch_initial_state(p.number, p.title.as_str(), p.tasks.as_slice(), lock, p.prefix.as_str());
            push_str(&mut text, init.as_str());
        }
        let ghost all0 = all@;
        let mut t: usize = 0;
        while t < p.tasks.len()
            invariant
                t <= p.tasks@.len(),
                all@ == all0 + p.tasks@.take(t as int),
            decreases p.tasks@.len() - t,
        {
            all.push(copy_task(&p.tasks[t]));
            assert(p.tasks@.take(t + 1) =~= p.tasks@.take(t as int).push(p.tasks@[t as int]));
            t += 1;
        }
        assert(p.tasks@.take(p.tasks@.len() as int) =~= p.tasks@);
        let mut present = false;
        let mut m: usize = 0;
        while m < now.len()
            invariant
                m <= now@.len(),
                !present ==> forall|j: int| 0 <= j < m ==> now@[j] != p.number,
                present ==> now@.contains(p.number),
            decreases now@.len() - m,
        {
            if now[m] == p.number {
                present = true;
            }
            m += 1;
        }
        if !present {
            now.push(p.number);
        }
        i += 1;
    }
    assert(prs@.take(prs@.len() as int) =~= prs@);
    let stop = if once {
        true
    } else {
        match wait_for {
            Some(c) => is_wait_condition_met(c, all.as_slice()),
            None => false,
        }
    };
    WatchStep { seen: now, text, notes: msgs, stop }
}

// ---------------------------------------------------------------------------
// fp switch

/// What `fp switch` does for a pull request: its branch and worktree, whether
/// the main worktree first goes back to `main` (adopting the branch, with the
/// message to print), and whether the worktree has to be created.
pub struct SwitchPlan {
    pub branch: String,
    pub worktree: String,
    pub checkout_main: bool,
    pub adopt_message: Option<String>,
    pub create_worktree: bool,
}

pub open spec fn dirty_message() -> Seq<char> {
    "current worktree has uncommitted changes — commit, stash, or use --force to override"@
}

pub open spec fn checked_out_message(branch: Seq<char>) -> Seq<char> {
    "branch '"@ + branch + "' is checked out in main worktree — switch it away first (fps root), or use --adopt"@
}

/// `fp switch <pr>`: refused when `pr` is not tracked, or when the current
/// worktree is dirty (unless forced or non-interactive), or when its branch is
/// the main worktree's HEAD and it is not to be adopted, or when another
/// session holds the lock on its branch (`lock_refusal`, the refusal the lock
/// gives); otherwise the worktree beside `root` for its branch, created when it
/// does not exist.
pub fn switch_plan(store: &TrackedPrs, pr: u64, root: &str, current_head: &str, dirty: bool, worktree_exists: bool,
    force: bool, adopt: bool, non_interactive: bool, lock_refusal: Option<String>) -> (r: Result<SwitchPlan, String>)
    ensures
        match cached_of(store.cache_view(), pr) {
            None => r matches Err(e) && e@ == not_tracked_message(pr),
            Some(c) => if !force && !non_interactive && dirty {
                r matches Err(e) && e@ == dirty_message()
            } else if current_head@ == c.branch@ && !adopt && !non_interactive {
                r matches Err(e) && e@ == checked_out_message(c.branch@)
            } else if lock_refusal is Some {
                r matches Err(e) && e@ == lock_refusal->0@
            } else {
                r matches Ok(p) && {
                    &&& p.branch@ == c.branch@
                    &&& p.worktree@ == worktree_path_of(root@, c.branch@)
                    &&& p.checkout_main == (current_head@ == c.branch@)
                    &&& (p.checkout_main ==> (p.adopt_message matches Some(m) && m@ == "Adopted "@ + c.branch@
                        + " — checked out main in main worktree, created fp worktree\n"@))
                    &&& (!p.checkout_main ==> p.adopt_message is None)
                    &&& p.create_worktree == !worktree_exists
                }
            },
        },
{
    let c = match store.cached(pr) {
        None => {
            let mut e = String::from_str("PR #");
            push_u64(&mut e, pr);
            push_str(&mut e, " is not tracked. Run `fp track ");
            push_u64(&mut e, pr);
            push_str(&mut e, "`");
            return Err(e);
        },
        Some(c) => c,
    };
    if !force && !non_interactive && dirty {
        return Err(String::from_str("current worktree has uncommitted changes — commit, stash, or use --force to override"));
    }
    let on_branch = str_eq(current_head, c.branch.as_str());
    if on_branch && !adopt && !non_interactive {
        let mut e = String::from_str("branch '");
        push_str(&mut e, c.branch.as_str());
        push_str(&mut e, "' is checked out in main worktree — switch it away first (fps root), or use --adopt");
        return Err(e);
    }
    match lock_refusal {
        Some(m) => return Err(m),
        None => {},
    }
    let adopt_message = if on_branch { Some(format_adopt_message(c.branch.as_str())) } else { None };
    Ok(SwitchPlan {
        branch: c.branch.clone(),
        worktree: worktree_path(root, c.branch.as_str()),
        checkout_main: on_branch,
        adopt_message,
        create_worktree: !worktree_exists,
    })
}

// ---------------------------------------------------------------------------
// fp rebase-stack: pull requests that were merged

/// A tracked pull request GitHub reports merged: its number and branch, the
/// head it was merged at and the base it was merged into.
pub struct MergedPr {
    pub number: u64,
    pub branch: String,
    pub head_sha: String,
    pub base_ref: String,
}

/// A step of handling merged pull requests.
pub enum MergedStep {
    /// Print a lock warning: the branch stays as it is.
    Warn(String),
    /// Rebase `branch` from `head_sha` onto `base_ref`, after pull request `pr` merged.
    Rebase { branch: String, head_sha: String, base_ref: String, pr: u64 },
    /// Stop tracking pull request `pr` and clean up its worktree.
    Untrack { pr: u64, branch: String },
}

pub enum MergedStepView {
    Warn(Seq<char>),
    Rebase { branch: Seq<char>, head_sha: Seq<char>, base_ref: Seq<char>, pr: u64 },
    Untrack { pr: u64, branch: Seq<char> },
}

pub open spec fn merged_step_view(s: MergedStep) -> MergedStepView {
    match s {
        MergedStep::Warn(w) => MergedStepView::Warn(w@),
        MergedStep::Rebase { branch, head_sha, base_ref, pr } =>
            MergedStepView::Rebase { branch: branch@, head_sha: head_sha@, base_ref: base_ref@, pr },
        MergedStep::Untrack { pr, branch } => MergedStepView::Untrack { pr, branch: branch@ },
    }
}

pub open spec fn merged_steps_view(ss: Seq<MergedStep>) -> Seq<MergedStepView> {
    ss.map_values(|s: MergedStep| merged_step_view(s))
}

/// The lock warning for `branch`, if any.
pub open spec fn lock_of(locks: Seq<(String, String)>, branch: Seq<char>) -> Option<Seq<char>>
    decreases locks.len(),
{
    if locks.len() == 0 {
        None
    } else if locks[0].0@ == branch {
        Some(locks[0].1@)
    } else {
        lock_of(locks.drop_first(), branch)
    }
}

/// For merged pull request `m`, a step per branch stacked directly on it (in
/// the order of `parent_of`): its lock warning, or its rebase.
pub open spec fn child_steps(parent_of: Seq<(String, Option<String>)>, m: MergedPr, locks: Seq<(String, String)>)
    -> Seq<MergedStepView>
    decreases parent_of.len(),
{
    if parent_of.len() == 0 {
        Seq::empty()
    } else {
        let (b, p) = parent_of.last();
        child_steps(parent_of.drop_last(), m, locks) + if p matches Some(x) && x@ == m.branch@ {
            match lock_of(locks, b@) {
                Some(w) => seq![MergedStepView::Warn(w)],
                None => seq![MergedStepView::Rebase { branch: b@, head_sha: m.head_sha@, base_ref: m.base_ref@, pr: m.number }],
            }
        } else {
            Seq::empty()
        }
    }
}

pub open spec fn rebase_steps(merged: Seq<MergedPr>, parent_of: Seq<(String, Option<String>)>,
    locks: Seq<(String, String)>) -> Seq<MergedStepView>
    decreases merged.len(),
{
    if merged.len() == 0 {
        Seq::empty()
    } else {
        rebase_steps(merged.drop_last(), parent_of, locks) + child_steps(parent_of, merged.last(), locks)
    }
}

pub open spec fn untrack_steps(merged: Seq<MergedPr>) -> Seq<MergedStepView>
    decreases merged.len(),
{
    if merged.len() == 0 {
        Seq::empty()
    } else {
        untrack_steps(merged.drop_last()) + seq![MergedStepView::Untrack { pr: merged.last().number, branch: merged.last().branch@ }]
    }
}

fn find_lock(locks: &Vec<(String, String)>, branch: &str) -> (r: Option<String>)
    ensures
        opt_view(r) == lock_of(locks@, branch@),
{
    let mut i: usize = 0;
    assert(locks@.skip(0) =~= locks@);
    while i < locks.len()
        invariant
            i <= locks@.len(),
            lock_of(locks@, branch@) == lock_of(locks@.skip(i as int), branch@),
        decreases locks@.len() - i,
    {
        assert(locks@.skip(i as int)[0] == locks@[i as int]);
        assert(locks@.skip(i as int).drop_first() =~= locks@.skip(i + 1));
        if str_eq(locks[i].0.as_str(), branch) {
            return Some(locks[i].1.clone());
        }
        i += 1;
    }
    None
}

/// What `fp rebase-stack` does first about tracked pull requests GitHub
/// reports merged (`merged`, in tracked order): for each, rebase every branch
/// stacked directly on it (per `parent_of`) onto the base it was merged into,
/// or warn where the branch is locked (`locks`); then stop tracking each.
pub fn merged_rebase_plan(merged: &Vec<MergedPr>, parent_of: &Vec<(String, Option<String>)>,
    locks: &Vec<(String, String)>) -> (r: Vec<MergedStep>)
    ensures
        merged_steps_view(r@) == rebase_steps(merged@, parent_of@, locks@) + untrack_steps(merged@),
{
    let mut steps: Vec<MergedStep> = Vec::new();
    let mut i: usize = 0;
    assert(merged@.take(0) =~= Seq::<MergedPr>::empty());
    assert(merged_steps_view(steps@) =~= Seq::<MergedStepView>::empty());
    while i < merged.len()
        invariant
            i <= merged@.len(),
            merged_steps_view(steps@) == rebase_steps(merged@.take(i as int), parent_of@, locks@),
        decreases merged@.len() - i,
    {
        assert(merged@.take(i + 1).drop_last() =~= merged@.take(i as int));
        let m = &merged[i];
        let ghost before = merged_steps_view(steps@);
        let mut j: usize = 0;
        assert(parent_of@.take(0) =~= Seq::<(String, Option<String>)>::empty());
        while j < parent_of.len()
            invariant
                j <= parent_of@.len(),
                i < merged@.len(),
                m == merged@[i as int],
                merged_steps_view(steps@) == before + child_steps(parent_of@.take(j as int), *m, locks@),
            decreases parent_of@.len() - j,
        {
            assert(parent_of@.take(j + 1).drop_last() =~= parent_of@.take(j as int));
            let ghost s0 = merged_steps_view(steps@);
            let is_child = match &parent_of[j].1 {
                Some(x) => str_eq(x.as_str(), m.branch.as_str()),
                None => false,
            };
            if is_child {
                match find_lock(locks, parent_of[j].0.as_str()) {
                    Some(w) => steps.push(MergedStep::Warn(w)),
                    None => steps.push(MergedStep::Rebase {
                        branch: parent_of[j].0.clone(),
                        head_sha: m.head_sha.clone(),
                        base_ref: m.base_ref.clone(),
                        pr: m.number,
                    }),
                }
                assert(merged_steps_view(steps@) =~= s0.push(merged_step_view(steps@.last())));
            }
            assert(child_steps(parent_of@.take(j + 1), *m, locks@) =~= child_steps(parent_of@.take(j as int), *m, locks@)
                + (merged_steps_view(steps@).skip(s0.len() as int)));
            j += 1;
        }
        assert(parent_of@.take(parent_of@.len() as int) =~= parent_of@);
        i += 1;
    }
    assert(merged@.take(merged@.len() as int) =~= merged@);
    let ghost rs = merged_steps_view(steps@);
    let mut k: usize = 0;
    assert(merged@.take(0) =~= Seq::<MergedPr>::empty());
    while k < merged.len()
        invariant
            k <= merged@.len(),
            merged_steps_view(steps@) == rs + untrack_steps(merged@.take(k as int)),
        decreases merged@.len() - k,
    {
        assert(merged@.take(k + 1).drop_last() =~= merged@.take(k as int));
        let ghost s0 = merged_steps_view(steps@);
        steps.push(MergedStep::Untrack { pr: merged[k].number, branch: merged[k].branch.clone() });
        assert(merged_steps_view(steps@) =~= s0.push(merged_step_view(steps@.last())));
        k += 1;
    }
    assert(merged@.take(merged@.len() as int) =~= merged@);
    steps
}

/// The report line of a rebase after a merge: done, or failed with `error`.
pub fn merged_rebase_line(branch: &str, base_ref: &str, pr: u64, error: Option<&str>) -> (r: String)
    ensures
        r@ == match opt_str(error) {
            None => "✓ rebased "@ + branch@ + " onto "@ + base_ref@ + " (merged PR #"@ + dec(pr as nat) + ")\n"@,
            Some(e) => "✗ failed to rebase "@ + branch@ + " after merge: "@ + e + "\n"@,
        },
{
    match error {
        None => {
            let mut out = String::from_str("✓ rebased ");
            push_str(&mut out, branch);
            push_str(&mut out, " onto ");
            push_str(&mut out, base_ref);
            push_str(&mut out, " (merged PR #");
            push_u64(&mut out, pr);
            push_str(&mut out, ")\n");
            out
        },
        Some(e) => {
            let mut out = String::from_str("✗ failed to rebase ");
            push_str(&mut out, branch);
            push_str(&mut out, " after merge: ");
            push_str(&mut out, e);
            push_str(&mut out, "\n");
            out
        },
    }
}

/// The report line of untracking a merged pull request.
pub fn untracked_merged_line(pr: u64) -> (r: String)
    ensures
        r@ == "✓ untracked merged PR #"@ + dec(pr as nat) + "\n"@,
{
    let mut out = String::from_str("✓ untracked merged PR #");
    push_u64(&mut out, pr);
    push_str(&mut out, "\n");
    out
}

// ---------------------------------------------------------------------------
// fp rebase-stack: squash merges, scope, locks, and the whole run

/// The pull requests of squash commits (each `(commit, number)`) that are not
/// tracked, in order: those whose heads must be asked of GitHub.
pub fn untracked_squash_prs(store: &TrackedPrs, squash: &Vec<(String, u64)>) -> (r: Vec<u64>)
    ensures
        r@ == squash@.map_values(|c: (String, u64)| c.1).filter(|n: u64| !store.is_tracked(n)),
{
    let ghost ns = squash@.map_values(|c: (String, u64)| c.1);
    let ghost pred = |n: u64| !store.is_tracked(n);
    let nums = store.numbers();
    let mut r: Vec<u64> = Vec::new();
    let mut i: usize = 0;
    while i < squash.len()
        invariant
            i <= squash@.len(),
            ns == squash@.map_values(|c: (String, u64)| c.1),
            pred == (|n: u64| !store.is_tracked(n)),
            nums@ == store.numbers_view(),
            r@ == ns.take(i as int).filter(pred),
        decreases squash@.len() - i,
    {
        proof { lemma_filter_take(ns, pred, i as int); }
        let n = squash[i].1;
        let mut known = false;
        let mut k: usize = 0;
        while k < nums.len()
            invariant
                k <= nums@.len(),
                !known ==> forall|j: int| 0 <= j < k ==> nums@[j] != n,
                known ==> nums@.contains(n),
            decreases nums@.len() - k,
        {
            if nums[k] == n {
                known = true;
            }
            k += 1;
        }
        if !known {
            r.push(n);
        }
        i += 1;
    }
    assert(ns.take(squash@.len() as int) =~= ns);
    r
}

/// For an untracked squash-merged pull request `pr` and a tracked `branch`:
/// nothing when they share no commit (`cut` is none) or share only a commit of
/// `origin/main` (an unrelated pull request); otherwise the lock warning of the
/// branch, or its rebase from the cut point onto `base_ref`.
pub fn squash_rebase_step(branch: &str, pr: u64, cut: Option<String>, cut_on_main: bool,
    lock_warning: Option<String>, base_ref: &str) -> (r: Option<MergedStep>)
    ensures
        r is None <==> (cut is None || cut_on_main),
        r matches Some(st) ==> match lock_warning {
            Some(w) => merged_step_view(st) == MergedStepView::Warn(w@),
            None => merged_step_view(st) == (MergedStepView::Rebase {
                branch: branch@, head_sha: cut->0@, base_ref: base_ref@, pr }),
        },
{
    match cut {
        None => None,
        Some(c) => if cut_on_main {
            None
        } else {
            match lock_warning {
                Some(w) => Some(MergedStep::Warn(w)),
                None => Some(MergedStep::Rebase { branch: String::from_str(branch), head_sha: c, base_ref: String::from_str(base_ref), pr }),
            }
        },
    }
}

/// The report line of a rebase after an untracked squash merge: done, or failed
/// with `error`.
pub fn squash_rebase_line(branch: &str, pr: u64, error: Option<&str>) -> (r: String)
    ensures
        r@ == match opt_str(error) {
            None => "✓ rebased "@ + branch@ + " after untracked squash of PR #"@ + dec(pr as nat) + "\n"@,
            Some(e) => "✗ failed to rebase "@ + branch@ + " after squash of PR #"@ + dec(pr as nat) + ": "@ + e + "\n"@,
        },
{
    let mut out = String::new();
    match error {
        None => {
            push_str(&mut out, "✓ rebased ");
            push_str(&mut out, branch);
            push_str(&mut out, " after untracked squash of PR #");
            push_u64(&mut out, pr);
            push_str(&mut out, "\n");
        },
        Some(e) => {
            push_str(&mut out, "✗ failed to rebase ");
            push_str(&mut out, branch);
            push_str(&mut out, " after squash of PR #");
            push_u64(&mut out, pr);
            push_str(&mut out, ": ");
            push_str(&mut out, e);
            push_str(&mut out, "\n");
        },
    }
    out
}

/// Whether `b` is `start` or stacks on it, through `parent_of`.
pub open spec fn in_subtree(po: Seq<(String, Option<String>)>, start: Seq<char>, b: Seq<char>) -> bool {
    b == start || held_back(po, seq![start], b)
}

/// The branches `fp rebase-stack` works on: all of them, or with `--from-pr`
/// the branch of that pull request and those stacked on it (in the order of
/// `all`); an error when that pull request is not tracked.
pub fn rebase_scope(store: &TrackedPrs, from_pr: Option<u64>, parent_of: &Vec<(String, Option<String>)>,
    all: &Vec<String>) -> (r: Result<Vec<String>, String>)
    ensures
        match from_pr {
            None => r matches Ok(v) && sviews(v@) == sviews(all@),
            Some(n) => match cached_of(store.cache_view(), n) {
                None => r matches Err(e) && e@ == "PR #"@ + dec(n as nat) + " is not tracked"@,
                Some(c) => r matches Ok(v)
                    && sviews(v@) == sviews(all@).filter(|b: Seq<char>| in_subtree(parent_of@, c.branch@, b)),
            },
        },
{
    match from_pr {
        None => {
            let mut v: Vec<String> = Vec::new();
            let mut i: usize = 0;
            while i < all.len()
                invariant
                    i <= all@.len(),
                    sviews(v@) == sviews(all@).take(i as int),
                decreases all@.len() - i,
            {
                let ghost before = sviews(v@);
                v.push(all[i].clone());
                assert(sviews(v@) =~= before.push(all@[i as int]@));
                assert(sviews(all@).take(i + 1) =~= sviews(all@).take(i as int).push(all@[i as int]@));
                i += 1;
            }
            assert(sviews(all@).take(all@.len() as int) =~= sviews(all@));
            Ok(v)
        },
        Some(n) => match store.cached(n) {
            None => {
                let mut e = String::from_str("PR #");
                push_u64(&mut e, n);
                push_str(&mut e, " is not tracked");
                Err(e)
            },
            Some(c) => {
                let start = c.branch.clone();
                let locked: Vec<String> = vec![c.branch.clone()];
                assert(sviews(locked@) =~= seq![start@]);
                let ghost pred = |b: Seq<char>| in_subtree(parent_of@, start@, b);
                let ghost all_v = sviews(all@);
                let mut v: Vec<String> = Vec::new();
                let mut i: usize = 0;
                while i < all.len()
                    invariant
                        i <= all@.len(),
                        all_v == sviews(all@),
                        sviews(locked@) == seq![start@],
                        pred == (|b: Seq<char>| in_subtree(parent_of@, start@, b)),
                        sviews(v@) == all_v.take(i as int).filter(pred),
                    decreases all@.len() - i,
                {
                    proof { lemma_filter_take(all_v, pred, i as int); }
                    let keep = str_eq(all[i].as_str(), start.as_str()) || is_held_back(parent_of, &locked, all[i].as_str());
                    if keep {
                        let ghost before = sviews(v@);
                        v.push(all[i].clone());
                        assert(sviews(v@) =~= before.push(all_v[i as int]));
                    }
                    i += 1;
                }
                assert(all_v.take(all@.len() as int) =~= all_v);
                Ok(v)
            },
        },
    }
}

/// The lock warnings of the locked branches of `bs`, a line each, in order.
pub open spec fn lock_lines(bs: Seq<Seq<char>>, locks: Seq<(String, String)>) -> Seq<char>
    decreases bs.len(),
{
    if bs.len() == 0 {
        Seq::empty()
    } else {
        lock_lines(bs.drop_last(), locks) + match lock_of(locks, bs.last()) {
            Some(w) => w + "\n"@,
            None => Seq::empty(),
        }
    }
}

/// What `fp rebase-stack` makes of the branches in scope and the locks read on
/// them (`locks`: a branch with the warning its lock or the main worktree
/// gives): the warnings, then a line per branch held back by a locked branch it
/// stacks on (`skipped`), and the branches left to rebase, in order.
pub struct RebaseTargets {
    pub text: String,
    pub skipped: Vec<String>,
    pub branches: Vec<String>,
}

pub fn rebase_targets(scoped: &Vec<String>, locks: &Vec<(String, String)>, parent_of: &Vec<(String, Option<String>)>)
    -> (r: RebaseTargets)
    ensures
        ({
            let locked = sviews(scoped@).filter(|b: Seq<char>| lock_of(locks@, b) is Some);
            &&& r.text@ == lock_lines(sviews(scoped@), locks@)
                + branch_lines(sviews(r.skipped@), "⚠ skipping "@, " — parent branch is locked\n"@)
            &&& forall|x: Seq<char>| sviews(r.skipped@).contains(x) <==> (exists|i: int| 0 <= i < parent_of@.len()
                && (#[trigger] parent_of@[i]).0@ == x) && held_back(parent_of@, locked, x)
            &&& sviews(r.branches@) == sviews(scoped@).filter(|b: Seq<char>| lock_of(locks@, b) is None
                && !held_back(parent_of@, locked, b))
        }),
{
    let ghost sv = sviews(scoped@);
    let ghost lpred = |b: Seq<char>| lock_of(locks@, b) is Some;
    let mut text = String::new();
    let mut locked: Vec<String> = Vec::new();
    let mut i: usize = 0;
    assert(sv.take(0) =~= Seq::<Seq<char>>::empty());
    while i < scoped.len()
        invariant
            i <= scoped@.len(),
            sv == sviews(scoped@),
            lpred == (|b: Seq<char>| lock_of(locks@, b) is Some),
            text@ == lock_lines(sv.take(i as int), locks@),
            sviews(locked@) == sv.take(i as int).filter(lpred),
        decreases scoped@.len() - i,
    {
        proof { lemma_filter_take(sv, lpred, i as int); }
        assert(sv.take(i + 1).drop_last() =~= sv.take(i as int));
        assert(sv.take(i + 1).last() == sv[i as int]);
        match find_lock(locks, scoped[i].as_str()) {
            Some(w) => {
                push_str(&mut text, w.as_str());
                push_str(&mut text, "\n");
                let ghost before = sviews(locked@);
                locked.push(scoped[i].clone());
                assert(sviews(locked@) =~= before.push(sv[i as int]));
            },
            None => {},
        }
        i += 1;
    }
    assert(sv.take(scoped@.len() as int) =~= sv);
    let skipped = crate::worktree::locked_subtree(&locked, parent_of);
    let skip_text = locked_skip_lines(skipped.as_slice());
    push_str(&mut text, skip_text.as_str());
    let ghost bpred = |b: Seq<char>| lock_of(locks@, b) is None && !held_back(parent_of@, sviews(locked@), b);
    let mut branches: Vec<String> = Vec::new();
    let mut j: usize = 0;
    while j < scoped.len()
        invariant
            j <= scoped@.len(),
            sv == sviews(scoped@),
            bpred == (|b: Seq<char>| lock_of(locks@, b) is None && !held_back(parent_of@, sviews(locked@), b)),
            sviews(branches@) == sv.take(j as int).filter(bpred),
        decreases scoped@.len() - j,
    {
        proof { lemma_filter_take(sv, bpred, j as int); }
        let lw = find_lock(locks, scoped[j].as_str());
        let keep = lw.is_none() && !is_held_back(parent_of, &locked, scoped[j].as_str());
        if keep {
            let ghost before = sviews(branches@);
            branches.push(scoped[j].clone());
            assert(sviews(branches@) =~= before.push(sv[j as int]));
        }
        j += 1;
    }
    assert(sv.take(scoped@.len() as int) =~= sv);
    RebaseTargets { text, skipped, branches }
}

/// Where a run of `fp rebase-stack` stands.
#[derive(PartialEq, Eq, Structural)]
pub enum RebasePhase {
    Start,
    Merged,
    Squash,
    Scope,
    Stack,
    Done,
}

/// A run of `fp rebase-stack`: its phase and the report so far.
pub struct RebaseState {
    pub phase: RebasePhase,
    pub out: String,
}

/// What the caller did or read since the last step.
pub enum RebaseEvent {
    /// The run starts with `count` pull requests tracked; `online` when GitHub can be asked.
    Started { count: usize, online: bool },
    /// The merged pull requests were handled (see `merged_rebase_plan`): the
    /// report of it, and how many pull requests are still tracked.
    MergedHandled { report: String, remaining: usize },
    /// Untracked squash merges were handled (see `squash_rebase_step`): the report of it.
    SquashHandled { report: String },
    /// The branches were scoped (see `rebase_scope`) and their locks read (see
    /// `rebase_targets`): the scope, or its error, and the lock report.
    Scoped { scope: Result<Vec<String>, String>, lock_report: String },
    /// The stack was rebased: the report of it (see `rebase_report`).
    Rebased { report: String },
}

/// What the caller does next.
pub enum RebaseAction {
    /// Ask GitHub which tracked pull requests were merged, and handle them.
    HandleMerged,
    /// Look for untracked squash merges under the tracked branches, and handle them.
    HandleSquash,
    /// Scope the branches and read their locks.
    Scope,
    /// Rebase these branches, parents before children.
    RebaseBranches(Vec<String>),
    /// The run is over, with this answer.
    Finish(Result<String, String>),
}

pub open spec fn unexpected_step() -> Seq<char> {
    "rebase-stack: unexpected step"@
}

/// The next state of a run of `fp rebase-stack` after `event`, and what to do.
/// Nothing tracked ends the run at once; without GitHub the merged and squash
/// phases are skipped; a run left with nothing tracked after the merged phase
/// ends with its report; a scope error ends the run with that error; the
/// stack's report ends it otherwise. An event out of turn ends the run with an
/// error.
pub open spec fn spec_rebase_stack_step(phase: RebasePhase, out: Seq<char>, event: RebaseEvent)
    -> (RebasePhase, Seq<char>, RebaseActionView)
{
    match (phase, event) {
        (RebasePhase::Start, RebaseEvent::Started { count, online }) =>
            if count == 0 {
                (RebasePhase::Done, out, RebaseActionView::Finish(Ok("No tracked PRs.\n"@)))
            } else if online {
                (RebasePhase::Merged, out, RebaseActionView::HandleMerged)
            } else {
                (RebasePhase::Scope, out, RebaseActionView::Scope)
            },
        (RebasePhase::Merged, RebaseEvent::MergedHandled { report, remaining }) =>
            if remaining == 0 {
                (RebasePhase::Done, out + report@, RebaseActionView::Finish(Ok(out + report@)))
            } else {
                (RebasePhase::Squash, out + report@, RebaseActionView::HandleSquash)
            },
        (RebasePhase::Squash, RebaseEvent::SquashHandled { report }) =>
            (RebasePhase::Scope, out + report@, RebaseActionView::Scope),
        (RebasePhase::Scope, RebaseEvent::Scoped { scope, lock_report }) => match scope {
            Err(e) => (RebasePhase::Done, out, RebaseActionView::Finish(Err(e@))),
            Ok(bs) => (RebasePhase::Stack, out + lock_report@, RebaseActionView::RebaseBranches(sviews(bs@))),
        },
        (RebasePhase::Stack, RebaseEvent::Rebased { report }) =>
            (RebasePhase::Done, out + report@, RebaseActionView::Finish(Ok(out + report@))),
        _ => (RebasePhase::Done, out, RebaseActionView::Finish(Err(unexpected_step()))),
    }
}

pub enum RebaseActionView {
    HandleMerged,
    HandleSquash,
    Scope,
    RebaseBranches(Seq<Seq<char>>),
    Finish(Result<Seq<char>, Seq<char>>),
}

pub open spec fn rebase_action_view(a: RebaseAction) -> RebaseActionView {
    match a {
        RebaseAction::HandleMerged => RebaseActionView::HandleMerged,
        RebaseAction::HandleSquash => RebaseActionView::HandleSquash,
        RebaseAction::Scope => RebaseActionView::Scope,
        RebaseAction::RebaseBranches(bs) => RebaseActionView::RebaseBranches(sviews(bs@)),
        RebaseAction::Finish(r) => RebaseActionView::Finish(match r { Ok(s) => Ok(s@), Err(e) => Err(e@) }),
    }
}

/// A step of a run of `fp rebase-stack` (see `spec_rebase_stack_step`).
pub fn rebase_stack_step(state: RebaseState, event: RebaseEvent) -> (r: (RebaseState, RebaseAction))
    ensures
        ({
            let (p, o, a) = spec_rebase_stack_step(state.phase, state.out@, event);
            &&& r.0.phase == p
            &&& r.0.out@ == o
            &&& rebase_action_view(r.1) == a
        }),
{
    let RebaseState { phase, mut out } = state;
    match (phase, event) {
        (RebasePhase::Start, RebaseEvent::Started { count, online }) => {
            if count == 0 {
                (RebaseState { phase: RebasePhase::Done, out }, RebaseAction::Finish(Ok(String::from_str("No tracked PRs.\n"))))
            } else if online {
                (RebaseState { phase: RebasePhase::Merged, out }, RebaseAction::HandleMerged)
            } else {
                (RebaseState { phase: RebasePhase::Scope, out }, RebaseAction::Scope)
            }
        },
        (RebasePhase::Merged, RebaseEvent::MergedHandled { report, remaining }) => {
            push_str(&mut out, report.as_str());
            if remaining == 0 {
                let answer = out.clone();
                (RebaseState { phase: RebasePhase::Done, out }, RebaseAction::Finish(Ok(answer)))
            } else {
                (RebaseState { phase: RebasePhase::Squash, out }, RebaseAction::HandleSquash)
            }
        },
        (RebasePhase::Squash, RebaseEvent::SquashHandled { report }) => {
            push_str(&mut out, report.as_str());
            (RebaseState { phase: RebasePhase::Scope, out }, RebaseAction::Scope)
        },
        (RebasePhase::Scope, RebaseEvent::Scoped { scope, lock_report }) => match scope {
            Err(e) => (RebaseState { phase: RebasePhase::Done, out }, RebaseAction::Finish(Err(e))),
            Ok(bs) => {
                push_str(&mut out, lock_report.as_str());
                (RebaseState { phase: RebasePhase::Stack, out }, RebaseAction::RebaseBranches(bs))
            },
        },
        (RebasePhase::Stack, RebaseEvent::Rebased { report }) => {
            push_str(&mut out, report.as_str());
            let answer = out.clone();
            (RebaseState { phase: RebasePhase::Done, out }, RebaseAction::Finish(Ok(answer)))
        },
        _ => (RebaseState { phase: RebasePhase::Done, out }, RebaseAction::Finish(Err(String::from_str("rebase-stack: unexpected step")))),
    }
}

} // verus!
