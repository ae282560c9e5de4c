//! Building a pull request's state (checks, approval, review threads) from the
//! GitHub API's payloads, held as plain values.
use vstd::prelude::*;
use crate::model::{Check, CheckStatus, Thread, ThreadState, PrState, opt_text, opt_view, text_or_empty, clone_opt};
use crate::text::{seq_lt, str_lt, str_eq, str_contains, contains_sub, copy_str, lemma_seq_lt_irrefl, lemma_seq_lt_total, lemma_seq_lt_trans};

verus! {

/// One entry of `check_runs` from the check-runs API.
pub struct CheckRunJson {
    pub name: Option<String>,
    pub started_at: Option<String>,
    pub status: Option<String>,
    pub conclusion: Option<String>,
    pub details_url: Option<String>,
}

/// A check as plain values.
pub struct CheckModel {
    pub name: Seq<char>,
    pub status: CheckStatus,
    pub required: bool,
    pub details_url: Option<Seq<char>>,
    pub log_snippet: Option<Seq<char>>,
}

pub open spec fn check_model(c: Check) -> CheckModel {
    CheckModel {
        name: c.name@,
        status: c.status,
        required: c.required,
        details_url: opt_view(c.details_url),
        log_snippet: opt_view(c.log_snippet),
    }
}

pub open spec fn check_models(cs: Seq<Check>) -> Seq<CheckModel> {
    cs.map_values(|c: Check| check_model(c))
}

pub open spec fn run_name(r: CheckRunJson) -> Seq<char> {
    opt_text(r.name)
}

pub open spec fn run_started(r: CheckRunJson) -> Seq<char> {
    opt_text(r.started_at)
}

/// Position of the first run named `name` in `s`, or -1.
pub open spec fn name_index(s: Seq<CheckRunJson>, name: Seq<char>) -> int
    decreases s.len(),
{
    if s.len() == 0 {
        -1
    } else {
        let k = name_index(s.drop_last(), name);
        if k != -1 {
            k
        } else if run_name(s.last()) == name {
            s.len() - 1
        } else {
            -1
        }
    }
}

/// One run per name, in the order the names first appear; a later run
/// replaces the kept one when it started strictly later.
pub open spec fn latest_runs(runs: Seq<CheckRunJson>) -> Seq<CheckRunJson>
    decreases runs.len(),
{
    if runs.len() == 0 {
        seq![]
    } else {
        let prev = latest_runs(runs.drop_last());
        let r = runs.last();
        let k = name_index(prev, run_name(r));
        if k == -1 {
            prev.push(r)
        } else if seq_lt(run_started(prev[k]), run_started(r)) {
            prev.update(k, r)
        } else {
            prev
        }
    }
}

pub proof fn lemma_name_index_facts(s: Seq<CheckRunJson>, name: Seq<char>)
    ensures
        -1 <= name_index(s, name) < s.len(),
        name_index(s, name) != -1 ==> run_name(s[name_index(s, name)]) == name,
        name_index(s, name) == -1 ==> forall|j: int| 0 <= j < s.len() ==> run_name(#[trigger] s[j]) != name,
    decreases s.len(),
{
    if s.len() > 0 {
        lemma_name_index_facts(s.drop_last(), name);
        assert forall|j: int| 0 <= j < s.len() - 1 implies s.drop_last()[j] == s[j] by {}
    }
}

/// Keeping the latest run of each check: one run per name, no name lost, and
/// for each name a kept run that no run of that name started after.
pub proof fn law_latest_runs(runs: Seq<CheckRunJson>)
    ensures
        forall|i: int, j: int| 0 <= i < j < latest_runs(runs).len()
            ==> run_name(#[trigger] latest_runs(runs)[i]) != run_name(#[trigger] latest_runs(runs)[j]),
        forall|i: int| 0 <= i < runs.len() ==> exists|k: int| 0 <= k < latest_runs(runs).len()
            && run_name(#[trigger] latest_runs(runs)[k]) == run_name(runs[i])
            && !seq_lt(run_started(latest_runs(runs)[k]), run_started(#[trigger] runs[i])),
        forall|k: int| 0 <= k < latest_runs(runs).len() ==> runs.contains(#[trigger] latest_runs(runs)[k]),
    decreases runs.len(),
{
    if runs.len() > 0 {
        let t = runs.drop_last();
        law_latest_runs(t);
        let prev = latest_runs(t);
        let r = runs.last();
        let k = name_index(prev, run_name(r));
        lemma_name_index_facts(prev, run_name(r));
        let cur = latest_runs(runs);
        assert forall|i: int| 0 <= i < t.len() implies t[i] == runs[i] by {}
        // one run per name
        assert forall|i: int, j: int| 0 <= i < j < cur.len()
            implies run_name(#[trigger] cur[i]) != run_name(#[trigger] cur[j]) by {
            if k == -1 {
                if j == prev.len() {
                    assert(cur[i] == prev[i]);
                } else {
                    assert(cur[i] == prev[i] && cur[j] == prev[j]);
                }
            } else {
                if i == k {
                    assert(run_name(cur[i]) == run_name(prev[i]));
                    assert(cur[j] == prev[j]);
                } else if j == k {
                    assert(run_name(cur[j]) == run_name(prev[j]));
                    assert(cur[i] == prev[i]);
                } else {
                    assert(cur[i] == prev[i] && cur[j] == prev[j]);
                }
            }
        }
        // every kept run is one of the runs
        assert forall|q: int| 0 <= q < cur.len() implies runs.contains(#[trigger] cur[q]) by {
            if cur[q] == r {
                assert(runs[runs.len() - 1] == r);
            } else {
                assert(cur[q] == prev[q]);
                assert(t.contains(prev[q]));
                let w = choose|w: int| 0 <= w < t.len() && t[w] == prev[q];
                assert(runs[w] == prev[q]);
            }
        }
        // no name lost, and none kept that started before another of its name
        assert forall|i: int| 0 <= i < runs.len() implies exists|q: int| 0 <= q < cur.len()
            && run_name(#[trigger] cur[q]) == run_name(runs[i])
            && !seq_lt(run_started(cur[q]), run_started(#[trigger] runs[i])) by {
            lemma_seq_lt_irrefl(run_started(r));
            if i == runs.len() - 1 {
                if k == -1 {
                    assert(cur[prev.len() as int] == r);
                } else if seq_lt(run_started(prev[k]), run_started(r)) {
                    assert(cur[k] == r);
                } else {
                    assert(cur[k] == prev[k]);
                }
            } else {
                assert(runs[i] == t[i]);
                let q = choose|q: int| 0 <= q < prev.len() && run_name(#[trigger] prev[q]) == run_name(t[i])
                    && !seq_lt(run_started(prev[q]), run_started(t[i]));
                if k != -1 && q == k && seq_lt(run_started(prev[k]), run_started(r)) {
                    assert(cur[k] == r);
                    let a = run_started(t[i]);
                    let b = run_started(prev[k]);
                    let c = run_started(r);
                    lemma_seq_lt_total(a, b);
                    if seq_lt(a, b) {
                        lemma_seq_lt_trans(a, b, c);
                        lemma_seq_lt_total(a, c);
                    } else {
                        lemma_seq_lt_total(b, c);
                    }
                } else {
                    assert(cur[q] == prev[q]);
                }
            }
        }
    }
}

pub open spec fn is_text(o: Option<String>, t: Seq<char>) -> bool {
    match o {
        Some(s) => s@ == t,
        None => false,
    }
}

/// How a check run's status and conclusion map to a check status.
pub open spec fn run_status(r: CheckRunJson) -> CheckStatus {
    if is_text(r.conclusion, "success"@) || is_text(r.conclusion, "skipped"@) || is_text(r.conclusion, "neutral"@) {
        CheckStatus::Pass
    } else if is_text(r.conclusion, "failure"@) || is_text(r.conclusion, "timed_out"@) || is_text(r.conclusion, "cancelled"@) {
        CheckStatus::Fail
    } else if is_text(r.status, "completed"@) {
        CheckStatus::Fail
    } else {
        CheckStatus::Pending
    }
}

/// The check that a run becomes, `required` when its name is among `required`.
pub open spec fn run_check(r: CheckRunJson, required: Seq<Seq<char>>) -> CheckModel {
    CheckModel {
        name: run_name(r),
        status: run_status(r),
        required: required.contains(run_name(r)),
        details_url: opt_view(r.details_url),
        log_snippet: None,
    }
}

pub open spec fn name_views(v: Seq<String>) -> Seq<Seq<char>> {
    v.map_values(|s: String| s@)
}

pub proof fn lemma_name_index(s: Seq<CheckRunJson>, name: Seq<char>, k: int)
    requires
        0 <= k <= s.len(),
        forall|j: int| 0 <= j < k ==> run_name(#[trigger] s[j]) != name,
        k < s.len() ==> run_name(s[k]) == name,
    ensures
        name_index(s, name) == if k < s.len() { k } else { -1 },
    decreases s.len(),
{
    if s.len() > 0 {
        let t = s.drop_last();
        if k < s.len() - 1 {
            assert forall|j: int| 0 <= j < k implies run_name(#[trigger] t[j]) != name by {
                assert(t[j] == s[j]);
            }
            lemma_name_index(t, name, k);
        } else {
            assert forall|j: int| 0 <= j < t.len() implies run_name(#[trigger] t[j]) != name by {
                assert(t[j] == s[j]);
            }
            lemma_name_index(t, name, t.len() as int);
        }
    }
}

fn eq_text(o: &Option<String>, t: &str) -> (r: bool)
    ensures
        r == is_text(*o, t@),
{
    match o {
        Some(s) => str_eq(s.as_str(), t),
        None => false,
    }
}

fn status_of_run(r: &CheckRunJson) -> (s: CheckStatus)
    ensures
        s == run_status(*r),
{
    if eq_text(&r.conclusion, "success") || eq_text(&r.conclusion, "skipped") || eq_text(&r.conclusion, "neutral") {
        CheckStatus::Pass
    } else if eq_text(&r.conclusion, "failure") || eq_text(&r.conclusion, "timed_out") || eq_text(&r.conclusion, "cancelled") {
        CheckStatus::Fail
    } else if eq_text(&r.status, "completed") {
        CheckStatus::Fail
    } else {
        CheckStatus::Pending
    }
}

/// Whether `name` is among `names`.
pub fn contains_name(names: &Vec<String>, name: &str) -> (r: bool)
    ensures
        r == name_views(names@).contains(name@),
{
    let mut i: usize = 0;
    while i < names.len()
        invariant
            i <= names@.len(),
            forall|j: int| 0 <= j < i ==> names@[j]@ != name@,
        decreases names@.len() - i,
    {
        if str_eq(names[i].as_str(), name) {
            assert(name_views(names@)[i as int] == name@);
            return true;
        }
        i += 1;
    }
    assert forall|j: int| 0 <= j < name_views(names@).len() implies name_views(names@)[j] != name@ by {
        assert(name_views(names@)[j] == names@[j]@);
    }
    false
}

pub open spec fn picked(runs: Seq<CheckRunJson>, idx: Seq<usize>) -> Seq<CheckRunJson> {
    idx.map_values(|k: usize| runs[k as int])
}

/// The latest run of each name, as positions in `runs`.
fn latest_run_positions(runs: &Vec<CheckRunJson>) -> (idx: Vec<usize>)
    ensures
        picked(runs@, idx@) == latest_runs(runs@),
        forall|j: int| 0 <= j < idx@.len() ==> idx@[j] < runs@.len(),
{
    let mut idx: Vec<usize> = Vec::new();
    let mut i: usize = 0;
    assert(runs@.take(0) =~= Seq::<CheckRunJson>::empty());
    assert(picked(runs@, idx@) =~= Seq::<CheckRunJson>::empty());
    while i < runs.len()
        invariant
            i <= runs@.len(),
            picked(runs@, idx@) == latest_runs(runs@.take(i as int)),
            forall|j: int| 0 <= j < idx@.len() ==> idx@[j] < i,
        decreases runs@.len() - i,
    {
        let ghost prev = picked(runs@, idx@);
        let r = &runs[i];
        let name = text_or_empty(&r.name);
        let mut k: usize = 0;
        while k < idx.len() && !str_eq(text_or_empty(&runs[idx[k]].name), name)
            invariant
                k <= idx@.len(),
                prev == picked(runs@, idx@),
                forall|j: int| 0 <= j < idx@.len() ==> idx@[j] < i,
                i < runs@.len(),
                name@ == run_name(runs@[i as int]),
                forall|j: int| 0 <= j < k ==> run_name(#[trigger] prev[j]) != name@,
            decreases idx@.len() - k,
        {
            assert(prev[k as int] == runs@[idx@[k as int] as int]);
            k += 1;
        }
        proof {
            if k < idx@.len() {
                assert(prev[k as int] == runs@[idx@[k as int] as int]);
            }
            lemma_name_index(prev, name@, k as int);
            let nxt = runs@.take(i + 1);
            assert(nxt.drop_last() =~= runs@.take(i as int));
            assert(nxt.last() == runs@[i as int]);
        }
        if k == idx.len() {
            idx.push(i);
            assert(picked(runs@, idx@) =~= prev.push(runs@[i as int]));
        } else {
            let cur = idx[k];
            if str_lt(text_or_empty(&runs[cur].started_at), text_or_empty(&r.started_at)) {
                idx.set(k, i);
                assert(picked(runs@, idx@) =~= prev.update(k as int, runs@[i as int]));
            }
        }
        i += 1;
    }
    assert(runs@.take(runs@.len() as int) =~= runs@);
    idx
}

fn check_of_run(r: &CheckRunJson, required: &Vec<String>) -> (c: Check)
    ensures
        check_model(c) == run_check(*r, name_views(required@)),
{
    let name = copy_str(text_or_empty(&r.name));
    let req = contains_name(required, name.as_str());
    Check {
        name,
        status: status_of_run(r),
        required: req,
        details_url: clone_opt(&r.details_url),
        log_snippet: None,
    }
}

/// The checks of a commit: one per check-run name (the latest run of it), in the
/// order the names first appear, `required` when named in `required`.
pub fn checks_from_runs(runs: &Vec<CheckRunJson>, required: &Vec<String>) -> (cs: Vec<Check>)
    ensures
        check_models(cs@) == latest_runs(runs@).map_values(|r: CheckRunJson| run_check(r, name_views(required@))),
{
    let idx = latest_run_positions(runs);
    let ghost want = latest_runs(runs@).map_values(|r: CheckRunJson| run_check(r, name_views(required@)));
    let mut cs: Vec<Check> = Vec::new();
    let mut j: usize = 0;
    while j < idx.len()
        invariant
            j <= idx@.len(),
            picked(runs@, idx@) == latest_runs(runs@),
            forall|t: int| 0 <= t < idx@.len() ==> idx@[t] < runs@.len(),
            want == latest_runs(runs@).map_values(|r: CheckRunJson| run_check(r, name_views(required@))),
            check_models(cs@) == want.take(j as int),
        decreases idx@.len() - j,
    {
        let c = check_of_run(&runs[idx[j]], required);
        let ghost before = check_models(cs@);
        cs.push(c);
        assert(picked(runs@, idx@)[j as int] == runs@[idx@[j as int] as int]);
        assert(check_models(cs@) =~= before.push(check_model(c)));
        assert(want.take(j + 1) =~= want.take(j as int).push(want[j as int]));
        j += 1;
    }
    assert(want.take(idx@.len() as int) =~= want);
    cs
}


/// One entry of the commit-statuses API.
pub struct CommitStatusJson {
    pub context: Option<String>,
    pub state: Option<String>,
    pub target_url: Option<String>,
}

pub open spec fn status_state(s: CommitStatusJson) -> CheckStatus {
    if is_text(s.state, "success"@) {
        CheckStatus::Pass
    } else if is_text(s.state, "failure"@) || is_text(s.state, "error"@) {
        CheckStatus::Fail
    } else {
        CheckStatus::Pending
    }
}

/// A target URL, dropped when empty.
pub open spec fn nonempty_url(o: Option<String>) -> Option<Seq<char>> {
    match o {
        Some(u) => if u@.len() > 0 { Some(u@) } else { None },
        None => None,
    }
}

pub open spec fn status_check(s: CommitStatusJson, required: Seq<Seq<char>>) -> CheckModel {
    CheckModel {
        name: opt_text(s.context),
        status: status_state(s),
        required: required.contains(opt_text(s.context)),
        details_url: nonempty_url(s.target_url),
        log_snippet: None,
    }
}

/// The checks that commit statuses add: one per context not yet seen, in order,
/// skipping empty contexts; with the contexts seen so far.
pub open spec fn status_checks(sts: Seq<CommitStatusJson>, seen: Seq<Seq<char>>, required: Seq<Seq<char>>)
    -> (Seq<CheckModel>, Seq<Seq<char>>)
    decreases sts.len(),
{
    if sts.len() == 0 {
        (seq![], seen)
    } else {
        let prev = status_checks(sts.drop_last(), seen, required);
        let s = sts.last();
        let n = opt_text(s.context);
        if n.len() == 0 || prev.1.contains(n) {
            prev
        } else {
            (prev.0.push(status_check(s, required)), prev.1.push(n))
        }
    }
}

fn status_of_commit_status(s: &CommitStatusJson) -> (r: CheckStatus)
    ensures
        r == status_state(*s),
{
    if eq_text(&s.state, "success") {
        CheckStatus::Pass
    } else if eq_text(&s.state, "failure") || eq_text(&s.state, "error") {
        CheckStatus::Fail
    } else {
        CheckStatus::Pending
    }
}

fn nonempty_url_of(o: &Option<String>) -> (r: Option<String>)
    ensures
        opt_view(r) == nonempty_url(*o),
{
    match o {
        Some(u) => if !u.as_str().is_empty() {
            Some(u.clone())
        } else {
            None
        },
        None => None,
    }
}

/// Appends to `checks` the checks that the commit statuses `sts` add.
pub fn add_status_checks(checks: &mut Vec<Check>, sts: &Vec<CommitStatusJson>, required: &Vec<String>)
    ensures
        check_models(final(checks)@) == check_models(old(checks)@)
            + status_checks(sts@, check_models(old(checks)@).map_values(|c: CheckModel| c.name), name_views(required@)).0,
{
    let ghost base = check_models(checks@);
    let ghost seen0 = base.map_values(|c: CheckModel| c.name);
    let mut seen: Vec<String> = Vec::new();
    let mut k: usize = 0;
    while k < checks.len()
        invariant
            k <= checks@.len(),
            base == check_models(checks@),
            seen0 == base.map_values(|c: CheckModel| c.name),
            name_views(seen@) == seen0.take(k as int),
        decreases checks@.len() - k,
    {
        let n = checks[k].name.clone();
        let ghost before = name_views(seen@);
        seen.push(n);
        assert(name_views(seen@) =~= before.push(checks@[k as int].name@));
        assert(seen0.take(k + 1) =~= seen0.take(k as int).push(seen0[k as int]));
        k += 1;
    }
    assert(seen0.take(checks@.len() as int) =~= seen0);
    let mut i: usize = 0;
    assert(sts@.take(0) =~= Seq::<CommitStatusJson>::empty());
    while i < sts.len()
        invariant
            i <= sts@.len(),
            seen0 == base.map_values(|c: CheckModel| c.name),
            check_models(checks@) == base + status_checks(sts@.take(i as int), seen0, name_views(required@)).0,
            name_views(seen@) == status_checks(sts@.take(i as int), seen0, name_views(required@)).1,
        decreases sts@.len() - i,
    {
        let st = &sts[i];
        let name = text_or_empty(&st.context);
        let ghost nxt = sts@.take(i + 1);
        proof {
            assert(nxt.drop_last() =~= sts@.take(i as int));
            assert(nxt.last() == sts@[i as int]);
        }
        let empty = name.is_empty();
        if !empty && !contains_name(&seen, name) {
            let c = Check {
                name: copy_str(name),
                status: status_of_commit_status(st),
                required: contains_name(required, name),
                details_url: nonempty_url_of(&st.target_url),
                log_snippet: None,
            };
            let ghost before = check_models(checks@);
            let ghost sbefore = name_views(seen@);
            checks.push(c);
            seen.push(copy_str(name));
            assert(check_models(checks@) =~= before.push(check_model(c)));
            assert(name_views(seen@) =~= sbefore.push(name@));
        }
        i += 1;
    }
    assert(sts@.take(sts@.len() as int) =~= sts@);
}

/// One review of the pull request.
pub struct ReviewJson {
    pub id: Option<u64>,
    pub state: Option<String>,
    pub body: Option<String>,
    pub login: Option<String>,
    pub user_type: Option<String>,
    pub submitted_at: Option<String>,
}

/// Some review is an approval.
pub open spec fn any_approved(reviews: Seq<ReviewJson>) -> bool {
    exists|i: int| 0 <= i < reviews.len() && is_text(#[trigger] reviews[i].state, "APPROVED"@)
}

/// An approving review counts wherever it stands: one at any position makes
/// the reviews approved, whatever reviews come before or after it, and without
/// one they are not.
pub proof fn law_approval_anywhere(reviews: Seq<ReviewJson>)
    ensures
        forall|i: int| 0 <= i < reviews.len() && ((#[trigger] reviews[i]).state matches Some(s) && s@ == "APPROVED"@)
            ==> any_approved(reviews),
        forall|before: Seq<ReviewJson>, after: Seq<ReviewJson>|
            any_approved(reviews) ==> #[trigger] any_approved(before + reviews + after),
        (forall|i: int| 0 <= i < reviews.len() ==> !((#[trigger] reviews[i]).state matches Some(s) && s@ == "APPROVED"@))
            ==> !any_approved(reviews),
{
    assert forall|before: Seq<ReviewJson>, after: Seq<ReviewJson>|
        any_approved(reviews) implies #[trigger] any_approved(before + reviews + after) by {
        let i = choose|i: int| 0 <= i < reviews.len() && is_text(#[trigger] reviews[i].state, "APPROVED"@);
        let all = before + reviews + after;
        assert(all[before.len() + i] == reviews[i]);
    }
    assert forall|i: int| 0 <= i < reviews.len() && ((#[trigger] reviews[i]).state matches Some(s) && s@ == "APPROVED"@)
        implies any_approved(reviews) by {
        assert(is_text(reviews[i].state, "APPROVED"@));
    }
}

/// Approved: some review approves and no user or team is still requested.
pub fn approval(reviews: &Vec<ReviewJson>, requested_users: usize, requested_teams: usize) -> (r: bool)
    ensures
        r == (any_approved(reviews@) && requested_users == 0 && requested_teams == 0),
        forall|i: int| 0 <= i < reviews@.len() && ((#[trigger] reviews@[i]).state matches Some(s) && s@ == "APPROVED"@)
            ==> r == (requested_users == 0 && requested_teams == 0),
{
    proof { law_approval_anywhere(reviews@); }
    let mut i: usize = 0;
    while i < reviews.len()
        invariant
            i <= reviews@.len(),
            forall|j: int| 0 <= j < i ==> !is_text(#[trigger] reviews@[j].state, "APPROVED"@),
        decreases reviews@.len() - i,
    {
        if eq_text(&reviews[i].state, "APPROVED") {
            return requested_users == 0 && requested_teams == 0;
        }
        i += 1;
    }
    false
}


/// A review thread as plain values.
pub struct ThreadModel {
    pub id: nat,
    pub state: ThreadState,
    pub author: Seq<char>,
    pub body: Seq<char>,
    pub replies: Seq<(Seq<char>, Seq<char>)>,
    pub file: Option<Seq<char>>,
    pub line: Option<nat>,
}

pub open spec fn reply_views(rs: Seq<(String, String)>) -> Seq<(Seq<char>, Seq<char>)> {
    rs.map_values(|p: (String, String)| (p.0@, p.1@))
}

pub open spec fn line_view(l: Option<u32>) -> Option<nat> {
    match l {
        Some(n) => Some(n as nat),
        None => None,
    }
}

pub open spec fn thread_model(t: Thread) -> ThreadModel {
    ThreadModel {
        id: t.id as nat,
        state: t.state,
        author: t.author@,
        body: t.body@,
        replies: reply_views(t.replies@),
        file: opt_view(t.file),
        line: line_view(t.line),
    }
}

pub open spec fn thread_models(ts: Seq<Thread>) -> Seq<ThreadModel> {
    ts.map_values(|t: Thread| thread_model(t))
}

/// One comment: a review comment (with `in_reply_to_id`, `path`, `line`) or a
/// conversation comment.
pub struct CommentJson {
    pub id: Option<u64>,
    pub login: Option<String>,
    pub user_type: Option<String>,
    pub body: Option<String>,
    pub created_at: Option<String>,
    pub in_reply_to_id: Option<u64>,
    pub path: Option<String>,
    pub line: Option<u64>,
}

pub open spec fn id_or_zero(o: Option<u64>) -> nat {
    match o {
        Some(n) => n as nat,
        None => 0,
    }
}

/// A bot account: typed "Bot", or with "[bot]" in its login.
pub open spec fn is_bot(login: Seq<char>, user_type: Seq<char>) -> bool {
    user_type == "Bot"@ || contains_sub(login, "[bot]"@)
}

fn bot(login: &str, user_type: &str) -> (r: bool)
    ensures
        r == is_bot(login@, user_type@),
{
    str_eq(user_type, "Bot") || str_contains(login, "[bot]")
}

// -- review bodies

/// A review whose body asks for something: changes requested or a comment,
/// with a body, from a human other than the author.
pub open spec fn review_is_thread(r: ReviewJson, author: Seq<char>) -> bool {
    &&& is_text(r.state, "CHANGES_REQUESTED"@) || is_text(r.state, "COMMENTED"@)
    &&& opt_text(r.body).len() > 0
    &&& !is_bot(opt_text(r.login), opt_text(r.user_type))
    &&& opt_text(r.login) != author
}

/// A conversation comment after `after` by the author or by `commenter`.
pub open spec fn relevant(c: CommentJson, after: Seq<char>, author: Seq<char>, commenter: Seq<char>) -> bool {
    seq_lt(after, opt_text(c.created_at)) && (opt_text(c.login) == author || opt_text(c.login) == commenter)
}

/// The position of the last relevant comment, or -1.
pub open spec fn last_relevant(cs: Seq<CommentJson>, after: Seq<char>, author: Seq<char>, commenter: Seq<char>) -> int
    decreases cs.len(),
{
    if cs.len() == 0 {
        -1
    } else if relevant(cs.last(), after, author, commenter) {
        cs.len() - 1
    } else {
        last_relevant(cs.drop_last(), after, author, commenter)
    }
}

/// Addressed when the author spoke last after the review, else open.
pub open spec fn review_state(r: ReviewJson, cs: Seq<CommentJson>, author: Seq<char>) -> ThreadState {
    let k = last_relevant(cs, opt_text(r.submitted_at), author, opt_text(r.login));
    if k != -1 && opt_text(cs[k].login) == author {
        ThreadState::Addressed
    } else {
        ThreadState::Open
    }
}

pub open spec fn review_thread(r: ReviewJson, cs: Seq<CommentJson>, author: Seq<char>) -> ThreadModel {
    ThreadModel {
        id: id_or_zero(r.id),
        state: review_state(r, cs, author),
        author: opt_text(r.login),
        body: opt_text(r.body),
        replies: seq![],
        file: None,
        line: None,
    }
}

/// The threads that review bodies open, in review order.
pub open spec fn review_threads(rs: Seq<ReviewJson>, cs: Seq<CommentJson>, author: Seq<char>) -> Seq<ThreadModel>
    decreases rs.len(),
{
    if rs.len() == 0 {
        seq![]
    } else {
        let prev = review_threads(rs.drop_last(), cs, author);
        if review_is_thread(rs.last(), author) {
            prev.push(review_thread(rs.last(), cs, author))
        } else {
            prev
        }
    }
}

proof fn lemma_last_relevant(cs: Seq<CommentJson>, after: Seq<char>, author: Seq<char>, commenter: Seq<char>, k: int)
    requires
        -1 <= k < cs.len(),
        forall|j: int| k < j < cs.len() ==> !relevant(#[trigger] cs[j], after, author, commenter),
        k != -1 ==> relevant(cs[k], after, author, commenter),
    ensures
        last_relevant(cs, after, author, commenter) == k,
    decreases cs.len(),
{
    if cs.len() > 0 && k < cs.len() - 1 {
        let t = cs.drop_last();
        assert forall|j: int| k < j < t.len() implies !relevant(#[trigger] t[j], after, author, commenter) by {
            assert(t[j] == cs[j]);
        }
        if k != -1 {
            assert(t[k] == cs[k]);
        }
        lemma_last_relevant(t, after, author, commenter, k);
    }
}

fn state_after_review(r: &ReviewJson, cs: &Vec<CommentJson>, author: &str) -> (st: ThreadState)
    ensures
        st == review_state(*r, cs@, author@),
{
    let after = text_or_empty(&r.submitted_at);
    let commenter = text_or_empty(&r.login);
    let mut j: usize = cs.len();
    while j > 0
        invariant
            j <= cs@.len(),
            after@ == opt_text(r.submitted_at),
            commenter@ == opt_text(r.login),
            forall|t: int| j <= t < cs@.len() ==> !relevant(#[trigger] cs@[t], after@, author@, commenter@),
        decreases j,
    {
        let c = &cs[j - 1];
        let who = text_or_empty(&c.login);
        if str_lt(after, text_or_empty(&c.created_at)) && (str_eq(who, author) || str_eq(who, commenter)) {
            proof {
                lemma_last_relevant(cs@, after@, author@, commenter@, j - 1);
                assert(*c == cs@[j - 1]);
                assert(opt_text(cs@[j - 1].login) == who@);
                assert(last_relevant(cs@, opt_text(r.submitted_at), author@, opt_text(r.login)) == j - 1);
                assert(review_state(*r, cs@, author@) == if who@ == author@ { ThreadState::Addressed } else { ThreadState::Open });
            }
            if str_eq(who, author) {
                return ThreadState::Addressed;
            } else {
                return ThreadState::Open;
            }
        }
        j -= 1;
    }
    proof { lemma_last_relevant(cs@, after@, author@, commenter@, -1); }
    ThreadState::Open
}

fn review_is_thread_exec(r: &ReviewJson, author: &str) -> (b: bool)
    ensures
        b == review_is_thread(*r, author@),
{
    (eq_text(&r.state, "CHANGES_REQUESTED") || eq_text(&r.state, "COMMENTED"))
        && !text_or_empty(&r.body).is_empty()
        && !bot(text_or_empty(&r.login), text_or_empty(&r.user_type))
        && !str_eq(text_or_empty(&r.login), author)
}

/// The threads that review bodies open.
pub fn threads_from_reviews(rs: &Vec<ReviewJson>, cs: &Vec<CommentJson>, author: &str) -> (ts: Vec<Thread>)
    ensures
        thread_models(ts@) == review_threads(rs@, cs@, author@),
{
    let mut ts: Vec<Thread> = Vec::new();
    let mut i: usize = 0;
    assert(rs@.take(0) =~= Seq::<ReviewJson>::empty());
    assert(thread_models(ts@) =~= Seq::<ThreadModel>::empty());
    while i < rs.len()
        invariant
            i <= rs@.len(),
            thread_models(ts@) == review_threads(rs@.take(i as int), cs@, author@),
        decreases rs@.len() - i,
    {
        let r = &rs[i];
        proof {
            let nxt = rs@.take(i + 1);
            assert(nxt.drop_last() =~= rs@.take(i as int));
            assert(nxt.last() == rs@[i as int]);
        }
        if review_is_thread_exec(r, author) {
            let t = Thread {
                id: match r.id { Some(n) => n, None => 0 },
                state: state_after_review(r, cs, author),
                author: copy_str(text_or_empty(&r.login)),
                body: copy_str(text_or_empty(&r.body)),
                replies: Vec::new(),
                file: None,
                line: None,
            };
            let ghost before = thread_models(ts@);
            ts.push(t);
            assert(reply_views(t.replies@) =~= Seq::<(Seq<char>, Seq<char>)>::empty());
            assert(thread_models(ts@) =~= before.push(thread_model(t)));
        }
        i += 1;
    }
    assert(rs@.take(rs@.len() as int) =~= rs@);
    ts
}


// -- inline review comments

pub open spec fn is_root(c: CommentJson) -> bool {
    c.in_reply_to_id is None
}

/// The position of the first root comment whose id is `key`, or -1.
pub open spec fn first_root(cs: Seq<CommentJson>, key: nat) -> int
    decreases cs.len(),
{
    if cs.len() == 0 {
        -1
    } else {
        let k = first_root(cs.drop_last(), key);
        if k != -1 {
            k
        } else if is_root(cs.last()) && id_or_zero(cs.last().id) == key {
            cs.len() - 1
        } else {
            -1
        }
    }
}

/// `c` answers the root comment at `p`: it replies to `p`'s id, and `p` is the
/// first root with that id.
pub open spec fn replies_to(cs: Seq<CommentJson>, p: int, c: CommentJson) -> bool {
    c.in_reply_to_id == Some(id_or_zero(cs[p].id) as u64) && first_root(cs, id_or_zero(cs[p].id)) == p
}

pub open spec fn replies_of(cs: Seq<CommentJson>, p: int) -> Seq<CommentJson> {
    cs.filter(|c: CommentJson| replies_to(cs, p, c))
}

pub open spec fn line_u32(l: Option<u64>) -> Option<nat> {
    match l {
        Some(n) => Some((n as u32) as nat),
        None => None,
    }
}

/// The thread rooted at `p`: addressed when the author wrote its last comment.
pub open spec fn root_thread(cs: Seq<CommentJson>, p: int, author: Seq<char>) -> ThreadModel {
    let rs = replies_of(cs, p);
    let last = if rs.len() > 0 { rs.last() } else { cs[p] };
    ThreadModel {
        id: id_or_zero(cs[p].id),
        state: if opt_text(last.login) == author { ThreadState::Addressed } else { ThreadState::Open },
        author: opt_text(cs[p].login),
        body: opt_text(cs[p].body),
        replies: rs.map_values(|c: CommentJson| (opt_text(c.login), opt_text(c.body))),
        file: opt_view(cs[p].path),
        line: line_u32(cs[p].line),
    }
}

/// The threads of the root comments among the first `n`, in order.
pub open spec fn comment_threads_upto(cs: Seq<CommentJson>, n: int, author: Seq<char>) -> Seq<ThreadModel>
    decreases n,
{
    if n <= 0 {
        seq![]
    } else {
        let prev = comment_threads_upto(cs, n - 1, author);
        if is_root(cs[n - 1]) {
            prev.push(root_thread(cs, n - 1, author))
        } else {
            prev
        }
    }
}

pub open spec fn comment_threads(cs: Seq<CommentJson>, author: Seq<char>) -> Seq<ThreadModel> {
    comment_threads_upto(cs, cs.len() as int, author)
}

proof fn lemma_first_root(cs: Seq<CommentJson>, key: nat, k: int)
    requires
        0 <= k <= cs.len(),
        forall|j: int| 0 <= j < k ==> !(is_root(#[trigger] cs[j]) && id_or_zero(cs[j].id) == key),
        k < cs.len() ==> is_root(cs[k]) && id_or_zero(cs[k].id) == key,
    ensures
        first_root(cs, key) == if k < cs.len() { k } else { -1 },
    decreases cs.len(),
{
    if cs.len() > 0 {
        let t = cs.drop_last();
        assert forall|j: int| 0 <= j < k && j < t.len() implies !(is_root(#[trigger] t[j]) && id_or_zero(t[j].id) == key) by {
            assert(t[j] == cs[j]);
        }
        if k < cs.len() - 1 {
            assert(t[k] == cs[k]);
            lemma_first_root(t, key, k);
        } else {
            lemma_first_root(t, key, t.len() as int);
        }
    }
}

fn first_root_exec(cs: &Vec<CommentJson>, key: u64) -> (r: usize)
    ensures
        r <= cs@.len(),
        first_root(cs@, key as nat) == if r < cs@.len() { r as int } else { -1 },
{
    let mut j: usize = 0;
    while j < cs.len()
        invariant
            j <= cs@.len(),
            forall|t: int| 0 <= t < j ==> !(is_root(#[trigger] cs@[t]) && id_or_zero(cs@[t].id) == key as nat),
        decreases cs@.len() - j,
    {
        let c = &cs[j];
        let k = match c.id { Some(n) => n, None => 0 };
        if c.in_reply_to_id.is_none() && k == key {
            proof { lemma_first_root(cs@, key as nat, j as int); }
            return j;
        }
        j += 1;
    }
    proof { lemma_first_root(cs@, key as nat, j as int); }
    j
}

fn thread_of_root(cs: &Vec<CommentJson>, p: usize, author: &str) -> (t: Thread)
    requires
        p < cs@.len(),
    ensures
        thread_model(t) == root_thread(cs@, p as int, author@),
{
    let root = &cs[p];
    let key: u64 = match root.id { Some(n) => n, None => 0 };
    let owner = first_root_exec(cs, key);
    let ghost pred = |c: CommentJson| replies_to(cs@, p as int, c);
    let mut replies: Vec<(String, String)> = Vec::new();
    let mut last: usize = p;
    let mut any = false;
    let mut j: usize = 0;
    assert(cs@.take(0) =~= Seq::<CommentJson>::empty());
    while j < cs.len()
        invariant
            j <= cs@.len(),
            p < cs@.len(),
            key as nat == id_or_zero(cs@[p as int].id),
            first_root(cs@, key as nat) == if owner < cs@.len() { owner as int } else { -1 },
            pred == (|c: CommentJson| replies_to(cs@, p as int, c)),
            last < cs@.len(),
            any == (cs@.take(j as int).filter(pred).len() > 0),
            any ==> cs@[last as int] == cs@.take(j as int).filter(pred).last(),
            !any ==> last == p,
            reply_views(replies@) == cs@.take(j as int).filter(pred).map_values(|c: CommentJson| (opt_text(c.login), opt_text(c.body))),
        decreases cs@.len() - j,
    {
        let c = &cs[j];
        let is_reply = owner == p && match c.in_reply_to_id { Some(x) => x == key, None => false };
        let ghost before_f = cs@.take(j as int).filter(pred);
        let ghost before_r = reply_views(replies@);
        proof {
            reveal_with_fuel(Seq::<_>::filter, 1);
            let nxt = cs@.take(j + 1);
            assert(nxt.drop_last() =~= cs@.take(j as int));
            assert(nxt.last() == cs@[j as int]);
            assert(pred(cs@[j as int]) == is_reply);
        }
        if is_reply {
            replies.push((copy_str(text_or_empty(&c.login)), copy_str(text_or_empty(&c.body))));
            last = j;
            any = true;
            assert(reply_views(replies@) =~= before_r.push((opt_text(c.login), opt_text(c.body))));
        }
        j += 1;
    }
    assert(cs@.take(cs@.len() as int) =~= cs@);
    let last_login = text_or_empty(&cs[last].login);
    let state = if str_eq(last_login, author) { ThreadState::Addressed } else { ThreadState::Open };
    let line: Option<u32> = match root.line { Some(l) => Some(l as u32), None => None };
    Thread {
        id: key,
        state,
        author: copy_str(text_or_empty(&root.login)),
        body: copy_str(text_or_empty(&root.body)),
        replies,
        file: clone_opt(&root.path),
        line,
    }
}

/// The last element of `s` that `pred` keeps is the one at `k` when nothing
/// after `k` is kept.
proof fn lemma_filter_last<A>(s: Seq<A>, pred: spec_fn(A) -> bool, k: int)
    requires
        0 <= k < s.len(),
        pred(s[k]),
        forall|j: int| k < j < s.len() ==> !pred(#[trigger] s[j]),
    ensures
        s.filter(pred).len() > 0,
        s.filter(pred).last() == s[k],
    decreases s.len(),
{
    reveal_with_fuel(Seq::<_>::filter, 1);
    if k < s.len() - 1 {
        let t = s.drop_last();
        assert forall|j: int| k < j < t.len() implies !pred(#[trigger] t[j]) by {
            assert(t[j] == s[j]);
        }
        assert(t[k] == s[k]);
        lemma_filter_last(t, pred, k);
        assert(!pred(s[s.len() - 1]));
    }
}

/// Nothing is kept of `s` when `pred` holds of none of its elements.
proof fn lemma_filter_none<A>(s: Seq<A>, pred: spec_fn(A) -> bool)
    requires
        forall|j: int| 0 <= j < s.len() ==> !pred(#[trigger] s[j]),
    ensures
        s.filter(pred).len() == 0,
    decreases s.len(),
{
    reveal_with_fuel(Seq::<_>::filter, 1);
    if s.len() > 0 {
        let t = s.drop_last();
        assert forall|j: int| 0 <= j < t.len() implies !pred(#[trigger] t[j]) by {
            assert(t[j] == s[j]);
        }
        lemma_filter_none(t, pred);
        assert(!pred(s[s.len() - 1]));
    }
}

/// A thread's state follows its last comment. When the comment at `k` is the
/// last reply to the root at `p`, the thread is addressed exactly when the pull
/// request's author wrote that reply, whatever earlier replies say; a root
/// with no reply is addressed exactly when the author wrote the root itself.
pub proof fn law_thread_state_follows_last_comment(cs: Seq<CommentJson>, p: int, author: Seq<char>)
    requires
        0 <= p < cs.len(),
    ensures
        forall|k: int| 0 <= k < cs.len() && #[trigger] replies_to(cs, p, cs[k])
            && (forall|j: int| k < j < cs.len() ==> !#[trigger] replies_to(cs, p, cs[j]))
            ==> (root_thread(cs, p, author).state == ThreadState::Addressed <==> opt_text(cs[k].login) == author),
        (forall|j: int| 0 <= j < cs.len() ==> !#[trigger] replies_to(cs, p, cs[j])) ==> {
            &&& root_thread(cs, p, author).replies.len() == 0
            &&& (root_thread(cs, p, author).state == ThreadState::Addressed <==> opt_text(cs[p].login) == author)
        },
{
    let pred = |c: CommentJson| replies_to(cs, p, c);
    assert forall|k: int| 0 <= k < cs.len() && #[trigger] replies_to(cs, p, cs[k])
        && (forall|j: int| k < j < cs.len() ==> !#[trigger] replies_to(cs, p, cs[j]))
        implies (root_thread(cs, p, author).state == ThreadState::Addressed <==> opt_text(cs[k].login) == author) by {
        assert forall|j: int| k < j < cs.len() implies !pred(#[trigger] cs[j]) by {
            assert(!replies_to(cs, p, cs[j]));
        }
        lemma_filter_last(cs, pred, k);
    }
    if forall|j: int| 0 <= j < cs.len() ==> !#[trigger] replies_to(cs, p, cs[j]) {
        assert forall|j: int| 0 <= j < cs.len() implies !pred(#[trigger] cs[j]) by {
            assert(!replies_to(cs, p, cs[j]));
        }
        lemma_filter_none(cs, pred);
    }
}

/// The threads of inline review comments: one per root comment, in order, with
/// its replies.
pub fn threads_from_comments(cs: &Vec<CommentJson>, author: &str) -> (ts: Vec<Thread>)
    ensures
        thread_models(ts@) == comment_threads(cs@, author@),
{
    let mut ts: Vec<Thread> = Vec::new();
    let mut i: usize = 0;
    assert(thread_models(ts@) =~= Seq::<ThreadModel>::empty());
    while i < cs.len()
        invariant
            i <= cs@.len(),
            thread_models(ts@) == comment_threads_upto(cs@, i as int, author@),
        decreases cs@.len() - i,
    {
        if cs[i].in_reply_to_id.is_none() {
            let t = thread_of_root(cs, i, author);
            let ghost before = thread_models(ts@);
            ts.push(t);
            assert(thread_models(ts@) =~= before.push(thread_model(t)));
        }
        i += 1;
    }
    ts
}

// -- conversation comments

pub open spec fn author_replied_after(cs: Seq<CommentJson>, i: int, author: Seq<char>) -> bool {
    exists|j: int| i < j < cs.len() && opt_text(#[trigger] cs[j].login) == author
}

/// A conversation comment that opens a thread: from a human other than the author.
pub open spec fn opens_issue_thread(c: CommentJson, author: Seq<char>) -> bool {
    !is_bot(opt_text(c.login), opt_text(c.user_type)) && opt_text(c.login) != author
}

pub open spec fn issue_thread(cs: Seq<CommentJson>, i: int, author: Seq<char>) -> ThreadModel {
    ThreadModel {
        id: id_or_zero(cs[i].id),
        state: if author_replied_after(cs, i, author) { ThreadState::Addressed } else { ThreadState::Open },
        author: opt_text(cs[i].login),
        body: opt_text(cs[i].body),
        replies: seq![],
        file: None,
        line: None,
    }
}

pub open spec fn issue_threads_upto(cs: Seq<CommentJson>, n: int, author: Seq<char>) -> Seq<ThreadModel>
    decreases n,
{
    if n <= 0 {
        seq![]
    } else {
        let prev = issue_threads_upto(cs, n - 1, author);
        if opens_issue_thread(cs[n - 1], author) {
            prev.push(issue_thread(cs, n - 1, author))
        } else {
            prev
        }
    }
}

pub open spec fn issue_threads(cs: Seq<CommentJson>, author: Seq<char>) -> Seq<ThreadModel> {
    issue_threads_upto(cs, cs.len() as int, author)
}

fn replied_after(cs: &Vec<CommentJson>, i: usize, author: &str) -> (r: bool)
    requires
        i < cs@.len(),
    ensures
        r == author_replied_after(cs@, i as int, author@),
{
    let n = cs.len();
    let mut j: usize = i + 1;
    while j < n
        invariant
            n == cs@.len(),
            i < j <= cs@.len(),
            forall|t: int| i < t < j ==> opt_text(#[trigger] cs@[t].login) != author@,
        decreases cs@.len() - j,
    {
        if str_eq(text_or_empty(&cs[j].login), author) {
            return true;
        }
        j += 1;
    }
    false
}

/// The threads that conversation comments open.
pub fn threads_from_issue_comments(cs: &Vec<CommentJson>, author: &str) -> (ts: Vec<Thread>)
    ensures
        thread_models(ts@) == issue_threads(cs@, author@),
{
    let mut ts: Vec<Thread> = Vec::new();
    let mut i: usize = 0;
    assert(thread_models(ts@) =~= Seq::<ThreadModel>::empty());
    while i < cs.len()
        invariant
            i <= cs@.len(),
            thread_models(ts@) == issue_threads_upto(cs@, i as int, author@),
        decreases cs@.len() - i,
    {
        let c = &cs[i];
        let login = text_or_empty(&c.login);
        if !bot(login, text_or_empty(&c.user_type)) && !str_eq(login, author) {
            let t = Thread {
                id: match c.id { Some(n) => n, None => 0 },
                state: if replied_after(cs, i, author) { ThreadState::Addressed } else { ThreadState::Open },
                author: copy_str(login),
                body: copy_str(text_or_empty(&c.body)),
                replies: Vec::new(),
                file: None,
                line: None,
            };
            let ghost before = thread_models(ts@);
            ts.push(t);
            assert(reply_views(t.replies@) =~= Seq::<(Seq<char>, Seq<char>)>::empty());
            assert(thread_models(ts@) =~= before.push(thread_model(t)));
        }
        i += 1;
    }
    ts
}

} // verus!
