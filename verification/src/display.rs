//! The text that `fp` prints.
use vstd::prelude::*;
use crate::model::{PrCache, Thread};
use crate::tasks::{Task, TaskType, task_type_text, task_type_name};
use crate::text::{
    push_str, push_u64, dec, replace_all, push_replaced, chars_of, split_lines, lines, views, contains,
    contains_sub, find_sub, find, find_char, idx_of, lemma_find_facts, match_at, string_of_range,
    second_piece, trim, trim_start_pos, trim_end_pos, push_range, str_eq, lemma_find_shift,
};
use crate::pr_state::{ThreadModel, thread_models};
use crate::github::{ref_models, is_open_state};

verus! {

pub open spec fn flag_text(blocking: bool) -> Seq<char> {
    if blocking { "[blocking]"@ } else { "[waiting]"@ }
}

/// `{prefix}  {flag} {type:?}: {description}` and a newline, for each task.
pub open spec fn task_lines(prefix: Seq<char>, ts: Seq<Task>) -> Seq<char>
    decreases ts.len(),
{
    if ts.len() == 0 {
        seq![]
    } else {
        let t = ts.last();
        task_lines(prefix, ts.drop_last()) + prefix + "  "@ + flag_text(t.blocking) + " "@
            + task_type_text(t.task_type) + ": "@ + t.description@ + "\n"@
    }
}

pub open spec fn opt_str(o: Option<&str>) -> Option<Seq<char>> {
    match o {
        Some(s) => Some(s@),
        None => None,
    }
}

pub open spec fn health_tag(h: Option<Seq<char>>) -> Seq<char> {
    match h {
        Some(x) => "  ["@ + x + "]"@,
        None => seq![],
    }
}

pub open spec fn state_tag(is_closed: bool, is_merged: bool) -> Seq<char> {
    if is_merged { "  [merged]"@ } else if is_closed { "  [closed]"@ } else { seq![] }
}

pub open spec fn draft_tag(draft: bool) -> Seq<char> {
    if draft { "  [draft]"@ } else { seq![] }
}

/// The prefix of a tree line, with the branch glyph turned into indentation for
/// the lines under it.
pub open spec fn task_prefix(prefix: Seq<char>) -> Seq<char> {
    replace_all(prefix, "└─ "@, "   "@)
}

pub open spec fn spec_status_all_entry(prefix: Seq<char>, number: u64, title: Seq<char>, tasks: Seq<Task>,
    lock: Seq<char>, health: Option<Seq<char>>, is_closed: bool, is_merged: bool, draft: bool) -> Seq<char>
{
    let tags = lock + health_tag(health) + state_tag(is_closed, is_merged) + draft_tag(draft);
    if tasks.len() == 0 {
        prefix + "PR #"@ + dec(number as nat) + " "@ + title + " — ready"@ + tags + "\n"@
    } else {
        prefix + "PR #"@ + dec(number as nat) + " "@ + title + " — "@ + dec(tasks.len()) + " task(s)"@ + tags
            + "\n"@ + task_lines(task_prefix(prefix), tasks)
    }
}

fn push_task_lines(out: &mut String, prefix: &str, tasks: &[Task])
    ensures
        final(out)@ == old(out)@ + task_lines(prefix@, tasks@),
{
    let ghost o0 = out@;
    let mut i: usize = 0;
    assert(tasks@.take(0) =~= Seq::<Task>::empty());
    while i < tasks.len()
        invariant
            i <= tasks@.len(),
            out@ == o0 + task_lines(prefix@, tasks@.take(i as int)),
        decreases tasks@.len() - i,
    {
        let t = &tasks[i];
        push_str(out, prefix);
        push_str(out, "  ");
        push_str(out, if t.blocking { "[blocking]" } else { "[waiting]" });
        push_str(out, " ");
        push_str(out, task_type_name(t.task_type));
        push_str(out, ": ");
        push_str(out, t.description.as_str());
        push_str(out, "\n");
        proof {
            let nxt = tasks@.take(i + 1);
            assert(nxt.drop_last() =~= tasks@.take(i as int));
            assert(nxt.last() == tasks@[i as int]);
        }
        i += 1;
    }
    assert(tasks@.take(tasks@.len() as int) =~= tasks@);
}

fn push_tags(out: &mut String, health: Option<&str>, is_closed: bool, is_merged: bool, draft: bool)
    ensures
        final(out)@ == old(out)@ + health_tag(opt_str(health)) + state_tag(is_closed, is_merged) + draft_tag(draft),
{
    let ghost o0 = out@;
    if let Some(h) = health {
        push_str(out, "  [");
        push_str(out, h);
        push_str(out, "]");
    }
    if is_merged {
        push_str(out, "  [merged]");
    } else if is_closed {
        push_str(out, "  [closed]");
    }
    if draft {
        push_str(out, "  [draft]");
    }
    proof {
        reveal_strlit("");
    }
    assert(out@ =~= o0 + health_tag(opt_str(health)) + state_tag(is_closed, is_merged) + draft_tag(draft));
}

/// One pull request's entry in `fp status --all`.
pub fn format_pr_status_all_entry(prefix: &str, number: u64, title: &str, tasks: &[Task], lock: &str,
    health: Option<&str>, is_closed: bool, is_merged: bool, draft: bool) -> (r: String)
    ensures
        r@ == spec_status_all_entry(prefix@, number, title@, tasks@, lock@, opt_str(health), is_closed, is_merged, draft),
{
    let mut out = String::new();
    push_str(&mut out, prefix);
    push_str(&mut out, "PR #");
    push_u64(&mut out, number);
    push_str(&mut out, " ");
    push_str(&mut out, title);
    if tasks.len() == 0 {
        push_str(&mut out, " — ready");
        push_str(&mut out, lock);
        push_tags(&mut out, health, is_closed, is_merged, draft);
        push_str(&mut out, "\n");
    } else {
        push_str(&mut out, " — ");
        push_u64(&mut out, tasks.len() as u64);
        push_str(&mut out, " task(s)");
        push_str(&mut out, lock);
        push_tags(&mut out, health, is_closed, is_merged, draft);
        push_str(&mut out, "\n");
        let mut tp = String::new();
        proof { reveal_strlit("└─ "); }
        push_replaced(&mut tp, prefix, "└─ ", "   ");
        push_task_lines(&mut out, tp.as_str(), tasks);
    }
    out
}

pub open spec fn lock_tag(lock: Option<Seq<char>>) -> Seq<char> {
    match lock {
        Some(s) => "  "@ + s,
        None => seq![],
    }
}

/// `\n  {flag} {type:?}: {description}` for each task.
pub open spec fn status_lines(ts: Seq<Task>) -> Seq<char>
    decreases ts.len(),
{
    if ts.len() == 0 {
        seq![]
    } else {
        let t = ts.last();
        status_lines(ts.drop_last()) + "\n  "@ + flag_text(t.blocking) + " "@ + task_type_text(t.task_type)
            + ": "@ + t.description@
    }
}

pub open spec fn spec_single_pr_status(pr: u64, tasks: Seq<Task>, lock: Option<Seq<char>>, is_closed: bool,
    is_merged: bool, draft: bool) -> Seq<char>
{
    let tags = lock_tag(lock) + state_tag(is_closed, is_merged) + draft_tag(draft);
    if tasks.len() == 0 {
        "PR #"@ + dec(pr as nat) + " is ready."@ + tags
    } else {
        "PR #"@ + dec(pr as nat) + " — "@ + dec(tasks.len()) + " task(s):"@ + tags + status_lines(tasks)
    }
}

/// `fp status` for one pull request: ready, or its tasks one per line.
pub fn format_single_pr_status(pr: u64, tasks: &[Task], lock: Option<&str>, is_closed: bool, is_merged: bool,
    draft: bool) -> (r: String)
    ensures
        r@ == spec_single_pr_status(pr, tasks@, opt_str(lock), is_closed, is_merged, draft),
{
    let mut out = String::from_str("PR #");
    push_u64(&mut out, pr);
    if tasks.len() == 0 {
        push_str(&mut out, " is ready.");
    } else {
        push_str(&mut out, " — ");
        push_u64(&mut out, tasks.len() as u64);
        push_str(&mut out, " task(s):");
    }
    let ghost o1 = out@;
    if let Some(l) = lock {
        push_str(&mut out, "  ");
        push_str(&mut out, l);
    }
    push_tags(&mut out, None, is_closed, is_merged, draft);
    proof { reveal_strlit(""); }
    assert(out@ =~= o1 + lock_tag(opt_str(lock)) + state_tag(is_closed, is_merged) + draft_tag(draft));
    let ghost o2 = out@;
    let mut i: usize = 0;
    assert(tasks@.take(0) =~= Seq::<Task>::empty());
    while i < tasks.len()
        invariant
            i <= tasks@.len(),
            out@ == o2 + status_lines(tasks@.take(i as int)),
        decreases tasks@.len() - i,
    {
        let t = &tasks[i];
        push_str(&mut out, "\n  ");
        push_str(&mut out, if t.blocking { "[blocking]" } else { "[waiting]" });
        push_str(&mut out, " ");
        push_str(&mut out, task_type_name(t.task_type));
        push_str(&mut out, ": ");
        push_str(&mut out, t.description.as_str());
        proof {
            let nxt = tasks@.take(i + 1);
            assert(nxt.drop_last() =~= tasks@.take(i as int));
            assert(nxt.last() == tasks@[i as int]);
        }
        i += 1;
    }
    assert(tasks@.take(tasks@.len() as int) =~= tasks@);
    out
}

pub fn format_adopt_message(branch: &str) -> (r: String)
    ensures
        r@ == "Adopted "@ + branch@ + " — checked out main in main worktree, created fp worktree\n"@,
{
    let mut out = String::from_str("Adopted ");
    push_str(&mut out, branch);
    push_str(&mut out, " — checked out main in main worktree, created fp worktree\n");
    out
}

pub fn format_new_worktree_output(wt_path: &str, branch: &str) -> (r: String)
    ensures
        r@ == "Created worktree at "@ + wt_path@ + "\nuse: fps "@ + branch@ + "\n"@,
{
    let mut out = String::from_str("Created worktree at ");
    push_str(&mut out, wt_path);
    push_str(&mut out, "\nuse: fps ");
    push_str(&mut out, branch);
    push_str(&mut out, "\n");
    out
}

pub fn repo_header(owner: &str, repo: &str) -> (r: String)
    ensures
        r@ == owner@ + "/"@ + repo@,
{
    let mut out = String::from_str(owner);
    push_str(&mut out, "/");
    push_str(&mut out, repo);
    out
}

/// The first line of `ls` that mentions `m`, if any.
pub open spec fn first_line_with(ls: Seq<Seq<char>>, m: Seq<char>) -> Option<Seq<char>>
    decreases ls.len(),
{
    if ls.len() == 0 {
        None
    } else if contains_sub(ls[0], m) {
        Some(ls[0])
    } else {
        first_line_with(ls.drop_first(), m)
    }
}

/// The worktree path in git's "already used by worktree at '{path}'" message.
pub open spec fn used_worktree_path(stderr: Seq<char>) -> Option<Seq<char>> {
    match first_line_with(lines(stderr), "already used by worktree at"@) {
        Some(l) => match second_piece(l, "worktree at '"@) {
            Some(s) => if s.len() > 0 && s.last() == '\'' {
                Some(s.drop_last())
            } else {
                Some(s.take(idx_of(s, '\'')))
            },
            None => None,
        },
        None => None,
    }
}

pub open spec fn spec_worktree_add_error(stderr: Seq<char>, pr: u64) -> Seq<char> {
    match used_worktree_path(stderr) {
        Some(p) => "branch already has a worktree at "@ + p + " — to relocate: git worktree remove "@ + p
            + " && fps "@ + dec(pr as nat),
        None => "git worktree add failed: "@ + trim(stderr),
    }
}

fn second_piece_of(l: &Vec<char>, p: &str) -> (r: Option<Vec<char>>)
    requires
        p@.len() > 0,
    ensures
        match second_piece(l@, p@) {
            Some(s) => r is Some && r->0@ == s,
            None => r is None,
        },
{
    let pv = chars_of(p);
    match find_sub(l, 0, &pv) {
        None => None,
        Some(i) => {
            proof { lemma_find_facts(l@, pv@, 0); }
            let n = l.len();
            let pl = pv.len();
            assert(i + pl <= n);
            let from = i + pl;
            let ghost rest = l@.skip(from as int);
            assert(l@.subrange(from as int, n as int) =~= rest);
            let j = find_sub(l, from, &pv);
            proof {
                lemma_find_shift(l@, pv@, from as int);
                lemma_find_facts(rest, p@, 0);
                assert(find(l@, p@) == i as int);
                assert(rest == l@.skip(find(l@, p@) + p@.len()));
            }
            match j {
                None => {
                    assert(find(rest, p@) == -1);
                    Some(crate::text::vec_of_range(l, from, n))
                },
                Some(k) => {
                    proof { lemma_find_facts(l@, pv@, from as int); }
                    assert(find(rest, p@) == k - from);
                    assert(rest.take(k - from) =~= l@.subrange(from as int, k as int));
                    Some(crate::text::vec_of_range(l, from, k))
                },
            }
        },
    }
}

fn used_worktree_path_of(stderr: &str) -> (r: Option<Vec<char>>)
    ensures
        match used_worktree_path(stderr@) {
            Some(p) => r is Some && r->0@ == p,
            None => r is None,
        },
{
    let sv = chars_of(stderr);
    let ls = split_lines(&sv);
    let marker = chars_of("already used by worktree at");
    let ghost all = views(ls@);
    let mut i: usize = 0;
    assert(all.skip(0) =~= all);
    while i < ls.len()
        invariant
            i <= ls@.len(),
            all == views(ls@),
            all == lines(stderr@),
            marker@ == "already used by worktree at"@,
            first_line_with(all, marker@) == first_line_with(all.skip(i as int), marker@),
        decreases ls@.len() - i,
    {
        proof {
            let t = all.skip(i as int);
            assert(t[0] == ls@[i as int]@);
            assert(t.drop_first() =~= all.skip(i + 1));
        }
        if contains(&ls[i], &marker) {
            proof { reveal_strlit("worktree at '"); }
            let piece = second_piece_of(&ls[i], "worktree at '");
            match piece {
                None => return None,
                Some(s) => {
                    let n = s.len();
                    if n > 0 && s[n - 1] == '\'' {
                        assert(s@.subrange(0, n - 1) =~= s@.drop_last());
                        return Some(crate::text::vec_of_range(&s, 0, n - 1));
                    }
                    let q = find_char(&s, 0, '\'');
                    assert(s@.subrange(0, n as int) =~= s@);
                    assert(s@.subrange(0, q as int) =~= s@.take(q as int));
                    return Some(crate::text::vec_of_range(&s, 0, q));
                },
            }
        }
        i += 1;
    }
    assert(all.skip(ls@.len() as int) =~= Seq::<Seq<char>>::empty());
    None
}

/// What to say when `git worktree add` fails: for a branch already checked out in
/// another worktree, how to relocate it and switch to pull request `pr` again;
/// otherwise git's own message. The branch is not part of either text.
pub fn format_worktree_add_error(stderr: &str, _branch: &str, pr: u64) -> (r: String)
    ensures
        r@ == spec_worktree_add_error(stderr@, pr),
{
    match used_worktree_path_of(stderr) {
        Some(p) => {
            let n = p.len();
            assert(p@.subrange(0, n as int) =~= p@);
            let mut out = String::from_str("branch already has a worktree at ");
            push_range(&mut out, &p, 0, n);
            push_str(&mut out, " — to relocate: git worktree remove ");
            push_range(&mut out, &p, 0, n);
            push_str(&mut out, " && fps ");
            push_u64(&mut out, pr);
            out
        },
        None => {
            let sv = chars_of(stderr);
            let n = sv.len();
            let b = trim_start_pos(&sv, 0, n);
            let e = trim_end_pos(&sv, b, n);
            assert(sv@.subrange(0, n as int) =~= sv@);
            let mut out = String::from_str("git worktree add failed: ");
            push_range(&mut out, &sv, b, e);
            out
        },
    }
}

/// The number of the first pull request in `prs` on `branch`, if any.
pub open spec fn pr_on_branch(prs: Seq<PrCache>, branch: Seq<char>) -> Option<u64>
    decreases prs.len(),
{
    if prs.len() == 0 {
        None
    } else if prs[0].branch@ == branch {
        Some(prs[0].number)
    } else {
        pr_on_branch(prs.drop_first(), branch)
    }
}

/// A hint to switch to the worktree of the tracked pull request on `branch`
/// (searched among `prs`), or nothing.
pub fn format_conflict_hint(branch: &str, prs: &[PrCache]) -> (r: String)
    ensures
        match pr_on_branch(prs@, branch@) {
            Some(n) => r@ == "  Tip: fps "@ + dec(n as nat) + " to switch to its worktree"@,
            None => r@ == Seq::<char>::empty(),
        },
{
    let mut i: usize = 0;
    assert(prs@.skip(0) =~= prs@);
    while i < prs.len()
        invariant
            i <= prs@.len(),
            pr_on_branch(prs@, branch@) == pr_on_branch(prs@.skip(i as int), branch@),
        decreases prs@.len() - i,
    {
        proof {
            assert(prs@.skip(i as int)[0] == prs@[i as int]);
            assert(prs@.skip(i as int).drop_first() =~= prs@.skip(i + 1));
        }
        if str_eq(prs[i].branch.as_str(), branch) {
            let mut out = String::from_str("  Tip: fps ");
            push_u64(&mut out, prs[i].number);
            push_str(&mut out, " to switch to its worktree");
            return out;
        }
        i += 1;
    }
    assert(prs@.skip(prs@.len() as int) =~= Seq::<PrCache>::empty());
    String::new()
}

/// The threads that still ask something of the author.
pub fn fetch_open_threads(threads: &Vec<Thread>) -> (r: Vec<&Thread>)
    ensures
        ref_models(r@) == thread_models(threads@).filter(|t: ThreadModel| is_open_state(t.state)),
{
    crate::github::fetch_open_threads(threads)
}

pub open spec fn note_views(ms: Seq<(String, String)>) -> Seq<(Seq<char>, Seq<char>)> {
    ms.map_values(|m: (String, String)| (m.0@, m.1@))
}

/// The notice a resolved task gives, if any.
pub open spec fn resolved_note(t: Task) -> Option<Seq<char>> {
    match t.task_type {
        TaskType::FixCi => Some("CI passing: "@ + t.context_hint@),
        TaskType::AwaitingReview => Some("PR approved"@),
        _ => None,
    }
}

/// The notice a new task gives, if any.
pub open spec fn new_note(t: Task) -> Option<Seq<char>> {
    match t.task_type {
        TaskType::RespondThread => Some("New review thread: "@ + t.description@),
        TaskType::FixCi => Some("CI failing: "@ + t.context_hint@),
        _ => None,
    }
}

pub open spec fn notes(ts: Seq<Task>, title: Seq<char>, resolved: bool) -> Seq<(Seq<char>, Seq<char>)>
    decreases ts.len(),
{
    if ts.len() == 0 {
        seq![]
    } else {
        let prev = notes(ts.drop_last(), title, resolved);
        match if resolved { resolved_note(ts.last()) } else { new_note(ts.last()) } {
            Some(m) => prev.push((title, m)),
            None => prev,
        }
    }
}

pub open spec fn notification_title(pr: u64) -> Seq<char> {
    "fp: #"@ + dec(pr as nat)
}

fn push_notes(msgs: &mut Vec<(String, String)>, ts: &[Task], title: &String, resolved: bool)
    ensures
        note_views(final(msgs)@) == note_views(old(msgs)@) + notes(ts@, title@, resolved),
{
    let ghost m0 = note_views(msgs@);
    let mut i: usize = 0;
    assert(ts@.take(0) =~= Seq::<Task>::empty());
    while i < ts.len()
        invariant
            i <= ts@.len(),
            note_views(msgs@) == m0 + notes(ts@.take(i as int), title@, resolved),
        decreases ts@.len() - i,
    {
        let t = &ts[i];
        let ghost before = note_views(msgs@);
        proof {
            let nxt = ts@.take(i + 1);
            assert(nxt.drop_last() =~= ts@.take(i as int));
            assert(nxt.last() == ts@[i as int]);
        }
        let note: Option<String> = if resolved {
            match t.task_type {
                TaskType::FixCi => {
                    let mut m = String::from_str("CI passing: ");
                    push_str(&mut m, t.context_hint.as_str());
                    Some(m)
                },
                TaskType::AwaitingReview => Some(String::from_str("PR approved")),
                _ => None,
            }
        } else {
            match t.task_type {
                TaskType::RespondThread => {
                    let mut m = String::from_str("New review thread: ");
                    push_str(&mut m, t.description.as_str());
                    Some(m)
                },
                TaskType::FixCi => {
                    let mut m = String::from_str("CI failing: ");
                    push_str(&mut m, t.context_hint.as_str());
                    Some(m)
                },
                _ => None,
            }
        };
        if let Some(m) = note {
            msgs.push((title.clone(), m));
            assert(note_views(msgs@) =~= before.push((title@, m@)));
        }
        i += 1;
    }
    assert(ts@.take(ts@.len() as int) =~= ts@);
}

/// Desktop notices for a watch round: CI passing or approval among resolved
/// tasks first, then new review threads or CI failures among new tasks.
pub fn watch_notification_messages(pr: u64, new: &[Task], resolved: &[Task]) -> (r: Vec<(String, String)>)
    ensures
        note_views(r@) == notes(resolved@, notification_title(pr), true) + notes(new@, notification_title(pr), false),
{
    let mut title = String::from_str("fp: #");
    push_u64(&mut title, pr);
    let mut msgs: Vec<(String, String)> = Vec::new();
    assert(note_views(msgs@) =~= Seq::<(Seq<char>, Seq<char>)>::empty());
    push_notes(&mut msgs, resolved, &title, true);
    push_notes(&mut msgs, new, &title, false);
    msgs
}

/// `+ PR #{pr} {flag} {type:?}: {description}` and a newline, for each task.
pub open spec fn new_task_lines(pr: u64, ts: Seq<Task>) -> Seq<char>
    decreases ts.len(),
{
    if ts.len() == 0 {
        seq![]
    } else {
        let t = ts.last();
        new_task_lines(pr, ts.drop_last()) + "+ PR #"@ + dec(pr as nat) + " "@ + flag_text(t.blocking) + " "@
            + task_type_text(t.task_type) + ": "@ + t.description@ + "\n"@
    }
}

/// `✓ PR #{pr} resolved {type:?}: {description}` and a newline, for each task.
pub open spec fn resolved_task_lines(pr: u64, ts: Seq<Task>) -> Seq<char>
    decreases ts.len(),
{
    if ts.len() == 0 {
        seq![]
    } else {
        let t = ts.last();
        resolved_task_lines(pr, ts.drop_last()) + "✓ PR #"@ + dec(pr as nat) + " resolved "@
            + task_type_text(t.task_type) + ": "@ + t.description@ + "\n"@
    }
}

/// What `fp watch` prints of one pull request after its first round: a line
/// for each task that appeared, then one for each task that went away.
pub fn watch_event_lines(pr: u64, new: &[Task], resolved: &[Task]) -> (r: String)
    ensures
        r@ == new_task_lines(pr, new@) + resolved_task_lines(pr, resolved@),
{
    let mut out = String::new();
    let mut i: usize = 0;
    assert(new@.take(0) =~= Seq::<Task>::empty());
    while i < new.len()
        invariant
            i <= new@.len(),
            out@ == new_task_lines(pr, new@.take(i as int)),
        decreases new@.len() - i,
    {
        let t = &new[i];
        push_str(&mut out, "+ PR #");
        push_u64(&mut out, pr);
        push_str(&mut out, " ");
        push_str(&mut out, if t.blocking { "[blocking]" } else { "[waiting]" });
        push_str(&mut out, " ");
        push_str(&mut out, task_type_name(t.task_type));
        push_str(&mut out, ": ");
        push_str(&mut out, t.description.as_str());
        push_str(&mut out, "\n");
        let ghost next = new@.take(i + 1);
        assert(next.drop_last() =~= new@.take(i as int));
        assert(next.last() == new@[i as int]);
        i += 1;
    }
    assert(new@.take(new@.len() as int) =~= new@);
    let ghost o1 = out@;
    let mut j: usize = 0;
    assert(resolved@.take(0) =~= Seq::<Task>::empty());
    while j < resolved.len()
        invariant
            j <= resolved@.len(),
            out@ == o1 + resolved_task_lines(pr, resolved@.take(j as int)),
        decreases resolved@.len() - j,
    {
        let t = &resolved[j];
        push_str(&mut out, "✓ PR #");
        push_u64(&mut out, pr);
        push_str(&mut out, " resolved ");
        push_str(&mut out, task_type_name(t.task_type));
        push_str(&mut out, ": ");
        push_str(&mut out, t.description.as_str());
        push_str(&mut out, "\n");
        let ghost next = resolved@.take(j + 1);
        assert(next.drop_last() =~= resolved@.take(j as int));
        assert(next.last() == resolved@[j as int]);
        j += 1;
    }
    assert(resolved@.take(resolved@.len() as int) =~= resolved@);
    out
}

// ---------------------------------------------------------------------------
// Watch and thread listings (text)

/// The first report of `fp watch` on one pull request, as text.
pub open spec fn spec_watch_initial_state(pr: u64, title: Seq<char>, tasks: Seq<Task>, lock: Option<Seq<char>>,
    prefix: Seq<char>) -> Seq<char>
{
    if tasks.len() == 0 {
        "PR #"@ + dec(pr as nat) + " "@ + title + " — ready"@ + lock_tag(lock) + "\n"@
    } else {
        "PR #"@ + dec(pr as nat) + " "@ + title + " — "@ + dec(tasks.len()) + " task(s)"@ + lock_tag(lock) + "\n"@
            + task_lines(task_prefix(prefix), tasks)
    }
}

fn push_lock(out: &mut String, lock: Option<&str>)
    ensures
        final(out)@ == old(out)@ + lock_tag(opt_str(lock)),
{
    if let Some(l) = lock {
        push_str(out, "  ");
        push_str(out, l);
    } else {
        assert(old(out)@ + lock_tag(opt_str(lock)) =~= old(out)@);
    }
}

/// The first report of `fp watch` on one pull request, as text: ready, or its
/// tasks one per line under the tree prefix.
pub fn format_watch_initial_state(pr: u64, title: &str, tasks: &[Task], lock: Option<&str>, prefix: &str) -> (r: String)
    ensures
        r@ == spec_watch_initial_state(pr, title@, tasks@, opt_str(lock), prefix@),
{
    let mut out = String::from_str("PR #");
    push_u64(&mut out, pr);
    push_str(&mut out, " ");
    push_str(&mut out, title);
    if tasks.len() == 0 {
        push_str(&mut out, " — ready");
        push_lock(&mut out, lock);
        push_str(&mut out, "\n");
    } else {
        push_str(&mut out, " — ");
        push_u64(&mut out, tasks.len() as u64);
        push_str(&mut out, " task(s)");
        push_lock(&mut out, lock);
        push_str(&mut out, "\n");
        let mut tp = String::new();
        proof { reveal_strlit("└─ "); }
        push_replaced(&mut tp, prefix, "└─ ", "   ");
        push_task_lines(&mut out, tp.as_str(), tasks);
    }
    out
}

pub open spec fn thread_state_name(s: crate::model::ThreadState) -> Seq<char> {
    match s {
        crate::model::ThreadState::Open => "Open"@,
        crate::model::ThreadState::Stale => "Stale"@,
        crate::model::ThreadState::Addressed => "Addressed"@,
        crate::model::ThreadState::Resolved => "Resolved"@,
    }
}

fn state_name(s: crate::model::ThreadState) -> (r: &'static str)
    ensures
        r@ == thread_state_name(s),
{
    match s {
        crate::model::ThreadState::Open => "Open",
        crate::model::ThreadState::Stale => "Stale",
        crate::model::ThreadState::Addressed => "Addressed",
        crate::model::ThreadState::Resolved => "Resolved",
    }
}

pub open spec fn open_thread_entry(t: Thread) -> Seq<char> {
    "  #"@ + dec(t.id as nat) + " ("@ + thread_state_name(t.state) + ")"@
        + (match (t.file, t.line) {
            (Some(f), Some(l)) => " "@ + f@ + ":"@ + dec(l as nat),
            _ => seq![],
        })
        + "\n    "@ + t.body@ + "\n"@
}

pub open spec fn open_thread_entries(ts: Seq<&Thread>) -> Seq<char>
    decreases ts.len(),
{
    if ts.len() == 0 {
        seq![]
    } else {
        open_thread_entries(ts.drop_last()) + open_thread_entry(*ts.last())
    }
}

pub open spec fn spec_open_threads(pr: u64, ts: Seq<&Thread>) -> Seq<char> {
    if ts.len() == 0 {
        "No open threads on PR #"@ + dec(pr as nat) + "."@
    } else {
        "PR #"@ + dec(pr as nat) + " — "@ + dec(ts.len()) + " open thread(s):\n"@ + open_thread_entries(ts)
    }
}

fn push_open_thread_entry(out: &mut String, t: &Thread)
    ensures
        final(out)@ == old(out)@ + open_thread_entry(*t),
{
    push_str(out, "  #");
    push_u64(out, t.id);
    push_str(out, " (");
    push_str(out, state_name(t.state));
    push_str(out, ")");
    match (&t.file, t.line) {
        (Some(f), Some(l)) => {
            push_str(out, " ");
            push_str(out, f.as_str());
            push_str(out, ":");
            push_u64(out, l as u64);
        },
        _ => {},
    }
    push_str(out, "\n    ");
    push_str(out, t.body.as_str());
    push_str(out, "\n");
}

/// The open threads of pull request `pr`, as text.
pub fn format_open_threads(pr: u64, threads: &[&Thread]) -> (r: String)
    ensures
        r@ == spec_open_threads(pr, threads@),
{
    if threads.len() == 0 {
        let mut out = String::from_str("No open threads on PR #");
        push_u64(&mut out, pr);
        push_str(&mut out, ".");
        return out;
    }
    let mut out = String::from_str("PR #");
    push_u64(&mut out, pr);
    push_str(&mut out, " — ");
    push_u64(&mut out, threads.len() as u64);
    push_str(&mut out, " open thread(s):\n");
    let ghost o1 = out@;
    let mut i: usize = 0;
    assert(threads@.take(0) =~= Seq::<&Thread>::empty());
    while i < threads.len()
        invariant
            i <= threads@.len(),
            out@ == o1 + open_thread_entries(threads@.take(i as int)),
        decreases threads@.len() - i,
    {
        push_open_thread_entry(&mut out, threads[i]);
        let ghost next = threads@.take(i + 1);
        assert(next.drop_last() =~= threads@.take(i as int));
        assert(next.last() == threads@[i as int]);
        i += 1;
    }
    assert(threads@.take(threads@.len() as int) =~= threads@);
    out
}

pub open spec fn resolved_entry(t: crate::github::ResolvedThreadInfo) -> Seq<char> {
    (match (t.file, t.line) {
        (Some(f), Some(l)) => "  "@ + f@ + ":"@ + dec(l as nat),
        _ => "  "@,
    })
        + "  resolved by: "@ + (match t.resolved_by { Some(x) => x@, None => "unknown"@ }) + "\n"@
        + (match t.created_at { Some(at) => "    opened: "@ + at@ + "\n"@, None => seq![] })
        + (match t.first_commit_after_opened { Some(c) => "    first commit after: "@ + c@ + "\n"@, None => seq![] })
        + "    "@ + t.body@ + "\n"@
}

pub open spec fn resolved_entries(ts: Seq<crate::github::ResolvedThreadInfo>) -> Seq<char>
    decreases ts.len(),
{
    if ts.len() == 0 {
        seq![]
    } else {
        resolved_entries(ts.drop_last()) + resolved_entry(ts.last())
    }
}

pub open spec fn spec_resolved_threads(pr: u64, ts: Seq<crate::github::ResolvedThreadInfo>) -> Seq<char> {
    if ts.len() == 0 {
        "No resolved threads on PR #"@ + dec(pr as nat) + "."@
    } else {
        "PR #"@ + dec(pr as nat) + " — "@ + dec(ts.len()) + " resolved thread(s):\n"@ + resolved_entries(ts)
    }
}

fn push_resolved_head(out: &mut String, t: &crate::github::ResolvedThreadInfo)
    ensures
        final(out)@ == old(out)@ + (match (t.file, t.line) {
            (Some(f), Some(l)) => "  "@ + f@ + ":"@ + dec(l as nat),
            _ => "  "@,
        }) + "  resolved by: "@ + (match t.resolved_by { Some(x) => x@, None => "unknown"@ }) + "\n"@,
{
    match (&t.file, t.line) {
        (Some(f), Some(l)) => {
            push_str(out, "  ");
            push_str(out, f.as_str());
            push_str(out, ":");
            push_u64(out, l as u64);
        },
        _ => push_str(out, "  "),
    }
    push_str(out, "  resolved by: ");
    match &t.resolved_by {
        Some(x) => push_str(out, x.as_str()),
        None => push_str(out, "unknown"),
    }
    push_str(out, "\n");
}

fn push_optional_line(out: &mut String, label: &str, v: &Option<String>)
    ensures
        final(out)@ == old(out)@ + (match *v { Some(x) => label@ + x@ + "\n"@, None => seq![] }),
{
    if let Some(x) = v {
        push_str(out, label);
        push_str(out, x.as_str());
        push_str(out, "\n");
    }
}

fn push_resolved_entry(out: &mut String, t: &crate::github::ResolvedThreadInfo)
    ensures
        final(out)@ == old(out)@ + resolved_entry(*t),
{
    push_resolved_head(out, t);
    push_optional_line(out, "    opened: ", &t.created_at);
    push_optional_line(out, "    first commit after: ", &t.first_commit_after_opened);
    push_str(out, "    ");
    push_str(out, t.body.as_str());
    push_str(out, "\n");
}

/// The resolved threads of pull request `pr`, as text.
pub fn format_resolved_threads(pr: u64, threads: &[crate::github::ResolvedThreadInfo]) -> (r: String)
    ensures
        r@ == spec_resolved_threads(pr, threads@),
{
    if threads.len() == 0 {
        let mut out = String::from_str("No resolved threads on PR #");
        push_u64(&mut out, pr);
        push_str(&mut out, ".");
        return out;
    }
    let mut out = String::from_str("PR #");
    push_u64(&mut out, pr);
    push_str(&mut out, " — ");
    push_u64(&mut out, threads.len() as u64);
    push_str(&mut out, " resolved thread(s):\n");
    let ghost o1 = out@;
    let mut i: usize = 0;
    assert(threads@.take(0) =~= Seq::<crate::github::ResolvedThreadInfo>::empty());
    while i < threads.len()
        invariant
            i <= threads@.len(),
            out@ == o1 + resolved_entries(threads@.take(i as int)),
        decreases threads@.len() - i,
    {
        push_resolved_entry(&mut out, &threads[i]);
        let ghost next = threads@.take(i + 1);
        assert(next.drop_last() =~= threads@.take(i as int));
        assert(next.last() == threads@[i as int]);
        i += 1;
    }
    assert(threads@.take(threads@.len() as int) =~= threads@);
    out
}

/// The conflict hint names a switch to a pull request on the branch whenever
/// one is remembered: the first such one; with none, there is no hint.
pub proof fn law_conflict_hint_names_pr_on_branch(prs: Seq<PrCache>, branch: Seq<char>)
    ensures
        (exists|i: int| 0 <= i < prs.len() && (#[trigger] prs[i]).branch@ == branch) ==> (pr_on_branch(prs, branch) matches Some(n)
            && exists|i: int| 0 <= i < prs.len() && (#[trigger] prs[i]).branch@ == branch && prs[i].number == n
                && forall|j: int| 0 <= j < i ==> (#[trigger] prs[j]).branch@ != branch),
        (forall|i: int| 0 <= i < prs.len() ==> (#[trigger] prs[i]).branch@ != branch) ==> pr_on_branch(prs, branch) is None,
    decreases prs.len(),
{
    if prs.len() > 0 {
        let t = prs.drop_first();
        law_conflict_hint_names_pr_on_branch(t, branch);
        if prs[0].branch@ != branch {
            if exists|i: int| 0 <= i < prs.len() && (#[trigger] prs[i]).branch@ == branch {
                let i = choose|i: int| 0 <= i < prs.len() && (#[trigger] prs[i]).branch@ == branch;
                assert(t[i - 1] == prs[i]);
                let k = choose|k: int| 0 <= k < t.len() && (#[trigger] t[k]).branch@ == branch
                    && t[k].number == pr_on_branch(t, branch)->0 && forall|j: int| 0 <= j < k ==> (#[trigger] t[j]).branch@ != branch;
                assert(prs[k + 1] == t[k]);
                assert forall|j: int| 0 <= j < k + 1 implies (#[trigger] prs[j]).branch@ != branch by {
                    if j > 0 { assert(prs[j] == t[j - 1]); }
                }
            }
            if forall|i: int| 0 <= i < prs.len() ==> (#[trigger] prs[i]).branch@ != branch {
                assert forall|i: int| 0 <= i < t.len() implies (#[trigger] t[i]).branch@ != branch by {
                    assert(t[i] == prs[i + 1]);
                }
            }
        }
    }
}

/// The notice a task gives when it is resolved or new, if any.
pub open spec fn task_note(t: Task, resolved: bool) -> Option<Seq<char>> {
    if resolved { resolved_note(t) } else { new_note(t) }
}

/// The notifications of a set of tasks are, in order, one per task that gives
/// a notice: a fixed CI ("CI passing: {hint}"), an approval ("PR approved"), a
/// new review thread ("New review thread: {description}") or a failing CI
/// ("CI failing: {hint}"), each under the same title.
pub proof fn law_notifications_unfold(ts: Seq<Task>, title: Seq<char>, resolved: bool)
    ensures
        notes(ts, title, resolved) == ts.filter(|t: Task| task_note(t, resolved) is Some)
            .map_values(|t: Task| (title, task_note(t, resolved)->0)),
    decreases ts.len(),
{
    let pred = |t: Task| task_note(t, resolved) is Some;
    let f = |t: Task| (title, task_note(t, resolved)->0);
    if ts.len() == 0 {
        assert(ts.filter(pred) =~= Seq::<Task>::empty());
    } else {
        law_notifications_unfold(ts.drop_last(), title, resolved);
        let n = (ts.len() - 1) as int;
        crate::keyed::lemma_filter_take(ts, pred, n);
        assert(ts.take(n) =~= ts.drop_last());
        assert(ts.take(n + 1) =~= ts);
        if pred(ts.last()) {
            assert(ts.filter(pred).map_values(f) =~= ts.drop_last().filter(pred).map_values(f).push(f(ts.last())));
        } else {
            assert(ts.filter(pred) == ts.drop_last().filter(pred));
        }
    }
}

} // verus!
