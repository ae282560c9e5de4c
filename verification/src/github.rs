//! The GitHub side: what the client asks for, and what is made of the answers.
use vstd::prelude::*;
use std::collections::HashMap;
use crate::model::{Check, PrState, Thread, opt_text, opt_view, text_or_empty};
use crate::pr_state::{
    CheckRunJson, CommitStatusJson, ReviewJson, CommentJson, CheckModel, ThreadModel, check_models,
    thread_models, latest_runs, run_check, run_name, name_views, status_checks, any_approved,
    comment_threads, review_threads, issue_threads, checks_from_runs, add_status_checks, approval,
    threads_from_comments, threads_from_reviews, threads_from_issue_comments,
};
use crate::text::{
    copy_str, push_str, push_u64, chars_of, vec_of_range, string_of_range, find_sub, find_char, find_from,
    find, match_at, matches_at, splitn, splitn_char, views, lemma_find_facts, idx_of, trim_end,
    trim_end_pos, trim_end_matches, split_lines, lines, dec, push_range, contains_sub, str_contains,
    lemma_contains_find, lemma_dec_digits, is_digit, lemma_trim_end, lemma_trim_end_newline, lemma_find_from,
    str_eq, lowercase, to_lowercase, split, split_char, trim, trim_start_pos, seq_lt,
};
use crate::model::ThreadState;
use crate::json::{
    JsonValue, json_parse, parse_json, opt_ref, field, item, items, members_of, text_of, bool_of, u64_of, get_field,
    get_item, get_text, get_text_or_empty, get_bool, get_u64,
};

verus! {

broadcast use vstd::std_specs::hash::group_hash_axioms;

/// Talks to the GitHub REST API with a token.
#[derive(Clone)]
pub struct GithubClient {
    token: String,
    base_url: String,
}

/// The fields of a pull request (`GET /repos/{o}/{r}/pulls/{n}`) that are read.
pub struct PullJson {
    pub title: Option<String>,
    pub head_ref: Option<String>,
    pub head_sha: Option<String>,
    pub base_ref: Option<String>,
    pub draft: Option<bool>,
    pub merged: Option<bool>,
    pub mergeable: Option<bool>,
    pub author: Option<String>,
    pub body: Option<String>,
    pub node_id: Option<String>,
}

/// The fields of a repository (`GET /repos/{o}/{r}`) that are read.
pub struct RepoJson {
    pub allow_squash_merge: Option<bool>,
    pub allow_merge_commit: Option<bool>,
    pub allow_rebase_merge: Option<bool>,
}

/// Everything fetched about one pull request.
pub struct PrPayloads {
    pub pull: PullJson,
    pub check_runs: Vec<CheckRunJson>,
    pub required_contexts: Vec<String>,
    pub statuses: Vec<CommitStatusJson>,
    pub reviews: Vec<ReviewJson>,
    pub requested_users: usize,
    pub requested_teams: usize,
    pub issue_comments: Vec<CommentJson>,
    pub review_comments: Vec<CommentJson>,
}

pub open spec fn bool_or(o: Option<bool>, d: bool) -> bool {
    match o {
        Some(b) => b,
        None => d,
    }
}

/// The base branch of a pull request, "main" when the payload has none.
pub open spec fn base_or_main(o: Option<String>) -> Seq<char> {
    match o {
        Some(b) => b@,
        None => "main"@,
    }
}

/// A pull request's state as plain values.
pub struct PrModel {
    pub number: nat,
    pub title: Seq<char>,
    pub branch: Seq<char>,
    pub base: Seq<char>,
    pub head_sha: Seq<char>,
    pub draft: bool,
    pub approved: bool,
    pub checks: Seq<CheckModel>,
    pub threads: Seq<ThreadModel>,
    pub has_merge_conflict: bool,
}

pub open spec fn pr_model(p: PrState) -> PrModel {
    PrModel {
        number: p.number as nat,
        title: p.title@,
        branch: p.branch@,
        base: p.base@,
        head_sha: p.head_sha@,
        draft: p.draft,
        approved: p.approved,
        checks: check_models(p.checks@),
        threads: thread_models(p.threads@),
        has_merge_conflict: p.has_merge_conflict,
    }
}

/// The checks of a pull request: its check runs (latest per name), then the
/// commit statuses whose context no check has yet.
pub open spec fn spec_pr_checks(p: PrPayloads) -> Seq<CheckModel> {
    let req = name_views(p.required_contexts@);
    let runs = latest_runs(p.check_runs@).map_values(|r: CheckRunJson| run_check(r, req));
    runs + status_checks(p.statuses@, runs.map_values(|c: CheckModel| c.name), req).0
}

/// The threads of a pull request: inline review threads, then review bodies,
/// then conversation comments.
pub open spec fn spec_pr_threads(p: PrPayloads) -> Seq<ThreadModel> {
    let author = opt_text(p.pull.author);
    comment_threads(p.review_comments@, author) + review_threads(p.reviews@, p.issue_comments@, author)
        + issue_threads(p.issue_comments@, author)
}

pub open spec fn spec_fetch_pr(number: u64, p: PrPayloads) -> PrModel {
    PrModel {
        number: number as nat,
        title: opt_text(p.pull.title),
        branch: opt_text(p.pull.head_ref),
        base: base_or_main(p.pull.base_ref),
        head_sha: opt_text(p.pull.head_sha),
        draft: bool_or(p.pull.draft, false),
        approved: any_approved(p.reviews@) && p.requested_users == 0 && p.requested_teams == 0,
        checks: spec_pr_checks(p),
        threads: spec_pr_threads(p),
        has_merge_conflict: p.pull.mergeable == Some(false),
    }
}

/// Appends all of `more` to `v`.
fn append_threads(v: &mut Vec<Thread>, more: Vec<Thread>)
    ensures
        thread_models(final(v)@) == thread_models(old(v)@) + thread_models(more@),
{
    let mut more = more;
    let ghost m0 = thread_models(more@);
    v.append(&mut more);
    assert(thread_models(v@) =~= thread_models(old(v)@) + m0);
}

impl GithubClient {
    pub closed spec fn token_view(&self) -> Seq<char> {
        self.token@
    }

    pub closed spec fn base_url_view(&self) -> Seq<char> {
        self.base_url@
    }

    pub fn new(token: String) -> (r: Self)
        ensures
            r.token_view() == token@,
            r.base_url_view() == "https://api.github.com"@,
    {
        GithubClient { token, base_url: String::from_str("https://api.github.com") }
    }

    pub fn with_base_url(token: String, base_url: String) -> (r: Self)
        ensures
            r.token_view() == token@,
            r.base_url_view() == base_url@,
    {
        GithubClient { token, base_url }
    }

    pub fn token(&self) -> (r: &str)
        ensures
            r@ == self.token_view(),
    {
        self.token.as_str()
    }

    pub fn base_url(&self) -> (r: &str)
        ensures
            r@ == self.base_url_view(),
    {
        self.base_url.as_str()
    }

    /// The state of pull request `number`, made from what the API returned about it;
    /// an error when the pull request names no author, since every thread's state
    /// depends on who the author is.
    pub fn fetch_pr(number: u64, p: &PrPayloads) -> (r: Result<PrState, String>)
        ensures
            r is Ok <==> p.pull.author is Some,
            r matches Ok(s) ==> pr_model(s) == spec_fetch_pr(number, *p),
            r matches Err(e) ==> e@ == "could not determine PR author"@,
    {
        if p.pull.author.is_none() {
            return Err(String::from_str("could not determine PR author"));
        }
        let mut checks = checks_from_runs(&p.check_runs, &p.required_contexts);
        add_status_checks(&mut checks, &p.statuses, &p.required_contexts);
        let author = text_or_empty(&p.pull.author);
        let mut threads = threads_from_comments(&p.review_comments, author);
        append_threads(&mut threads, threads_from_reviews(&p.reviews, &p.issue_comments, author));
        append_threads(&mut threads, threads_from_issue_comments(&p.issue_comments, author));
        let base = match &p.pull.base_ref {
            Some(b) => b.clone(),
            None => String::from_str("main"),
        };
        let draft = match p.pull.draft { Some(b) => b, None => false };
        let conflict = match p.pull.mergeable { Some(b) => !b, None => false };
        Ok(PrState {
            number,
            title: copy_str(text_or_empty(&p.pull.title)),
            branch: copy_str(text_or_empty(&p.pull.head_ref)),
            base,
            head_sha: copy_str(text_or_empty(&p.pull.head_sha)),
            draft,
            approved: approval(&p.reviews, p.requested_users, p.requested_teams),
            checks,
            threads,
            has_merge_conflict: conflict,
        })
    }

    /// The pull request that creating one answered (number `number`), with no
    /// checks, threads or approval yet: "" for a missing title or branch, and 0 for
    /// a missing number.
    pub fn create_pr_with_body(number: Option<u64>, pull: &PullJson) -> (r: PrState)
        ensures
            r.number == match number { Some(n) => n, None => 0 },
            r.title@ == opt_text(pull.title),
            r.branch@ == opt_text(pull.head_ref),
            r.base@ == opt_text(pull.base_ref),
            r.head_sha@.len() == 0,
            r.draft == bool_or(pull.draft, false),
            !r.approved,
            r.checks@.len() == 0,
            r.threads@.len() == 0,
            !r.has_merge_conflict,
    {
        PrState {
            number: match number { Some(n) => n, None => 0 },
            title: copy_str(text_or_empty(&pull.title)),
            branch: copy_str(text_or_empty(&pull.head_ref)),
            base: copy_str(text_or_empty(&pull.base_ref)),
            head_sha: String::new(),
            draft: match pull.draft { Some(b) => b, None => false },
            approved: false,
            checks: Vec::new(),
            threads: Vec::new(),
            has_merge_conflict: false,
        }
    }

    /// The checks of a commit from its check runs; none is marked required.
    pub fn fetch_checks_for_sha(runs: &Vec<CheckRunJson>) -> (cs: Vec<Check>)
        ensures
            check_models(cs@) == latest_runs(runs@).map_values(|r: CheckRunJson| run_check(r, seq![])),
    {
        let none: Vec<String> = Vec::new();
        assert(name_views(none@) =~= Seq::<Seq<char>>::empty());
        checks_from_runs(runs, &none)
    }

    /// Head SHA and base branch of a pull request ("" for what is missing).
    pub fn fetch_pr_head_sha_and_base(pull: &PullJson) -> (r: (String, String))
        ensures
            r.0@ == opt_text(pull.head_sha),
            r.1@ == opt_text(pull.base_ref),
    {
        (copy_str(text_or_empty(&pull.head_sha)), copy_str(text_or_empty(&pull.base_ref)))
    }

    /// Whether a pull request is merged (false when the payload does not say).
    pub fn fetch_pr_is_merged(pull: &PullJson) -> (r: bool)
        ensures
            r == bool_or(pull.merged, false),
    {
        match pull.merged { Some(b) => b, None => false }
    }

    /// The base branch of a pull request ("" when missing).
    pub fn fetch_pr_base(pull: &PullJson) -> (r: String)
        ensures
            r@ == opt_text(pull.base_ref),
    {
        copy_str(text_or_empty(&pull.base_ref))
    }

    /// The body of a pull request ("" when missing).
    pub fn fetch_pr_body(pull: &PullJson) -> (r: String)
        ensures
            r@ == opt_text(pull.body),
    {
        copy_str(text_or_empty(&pull.body))
    }

    /// Title and head branch of a pull request ("" for what is missing).
    pub fn fetch_pr_metadata(pull: &PullJson) -> (r: (String, String))
        ensures
            r.0@ == opt_text(pull.title),
            r.1@ == opt_text(pull.head_ref),
    {
        (copy_str(text_or_empty(&pull.title)), copy_str(text_or_empty(&pull.head_ref)))
    }

    /// The merge method a repository prefers: squash, then rebase, then merge
    /// commit, among those it allows; squash when it allows none.
    pub fn fetch_repo_merge_method(repo: &RepoJson) -> (r: String)
        ensures
            r@ == spec_merge_method(*repo),
    {
        let squash = match repo.allow_squash_merge { Some(b) => b, None => false };
        let merge = match repo.allow_merge_commit { Some(b) => b, None => false };
        let rebase = match repo.allow_rebase_merge { Some(b) => b, None => false };
        if squash {
            return String::from_str("squash");
        }
        if rebase {
            return String::from_str("rebase");
        }
        if merge {
            return String::from_str("merge");
        }
        String::from_str("squash")
    }

    /// Pull requests keyed by number; a later one replaces an earlier one of the same number.
    pub fn fetch_prs_as_map(prs: Vec<PrState>) -> (m: HashMap<u64, PrState>)
        ensures
            m@ == spec_prs_map(prs@),
    {
        let mut m: HashMap<u64, PrState> = HashMap::new();
        let mut prs = prs;
        let ghost all = prs@;
        let mut rest: Vec<PrState> = Vec::new();
        let n = prs.len();
        let mut i: usize = 0;
        assert(all.take(0) =~= Seq::<PrState>::empty());
        assert(m@ =~= spec_prs_map(all.take(0)));
        while i < n
            invariant
                n == all.len(),
                i <= n,
                prs@ == all.skip(i as int),
                m@ == spec_prs_map(all.take(i as int)),
            decreases n - i,
        {
            let p = prs.remove(0);
            assert(prs@ =~= all.skip(i + 1));
            proof {
                let nxt = all.take(i + 1);
                assert(nxt.drop_last() =~= all.take(i as int));
                assert(p == all[i as int]);
            }
            m.insert(p.number, p);
            i += 1;
        }
        assert(all.take(n as int) =~= all);
        m
    }
}

pub open spec fn spec_merge_method(repo: RepoJson) -> Seq<char> {
    if bool_or(repo.allow_squash_merge, false) {
        "squash"@
    } else if bool_or(repo.allow_rebase_merge, false) {
        "rebase"@
    } else if bool_or(repo.allow_merge_commit, false) {
        "merge"@
    } else {
        "squash"@
    }
}

pub open spec fn spec_prs_map(prs: Seq<PrState>) -> Map<u64, PrState>
    decreases prs.len(),
{
    if prs.len() == 0 {
        Map::empty()
    } else {
        spec_prs_map(prs.drop_last()).insert(prs.last().number, prs.last())
    }
}


// ---------------------------------------------------------------------------
// Pages of a listing

/// The pieces of a `Link` header, each trimmed.
pub open spec fn link_parts(h: Seq<char>) -> Seq<Seq<char>> {
    split_char(h, ',').map_values(|p: Seq<char>| trim(p))
}

pub open spec fn rel_next() -> Seq<char> {
    "rel=\"next\""@
}

/// Whether piece `p` names the next page and holds both angle brackets.
pub open spec fn names_next(p: Seq<char>) -> bool {
    contains_sub(p, rel_next()) && p.contains('<') && p.contains('>')
}

/// The first piece that names the next page.
pub open spec fn first_next(ps: Seq<Seq<char>>) -> Option<Seq<char>>
    decreases ps.len(),
{
    if ps.len() == 0 {
        None
    } else if names_next(ps[0]) {
        Some(ps[0])
    } else {
        first_next(ps.drop_first())
    }
}

/// Whether the header can be read: in the piece that names the next page, the
/// first `<` comes before the first `>`.
pub open spec fn link_readable(h: Seq<char>) -> bool {
    match first_next(link_parts(h)) {
        Some(p) => idx_of(p, '<') < idx_of(p, '>'),
        None => true,
    }
}

/// The URL of the next page: what stands between the brackets of the first
/// piece that names it.
pub open spec fn spec_next_link(h: Seq<char>) -> Option<Seq<char>> {
    match first_next(link_parts(h)) {
        Some(p) => Some(p.subrange(idx_of(p, '<') + 1, idx_of(p, '>'))),
        None => None,
    }
}

fn next_part(h: &str) -> (r: Option<Vec<char>>)
    ensures
        match r {
            Some(p) => first_next(link_parts(h@)) == Some(p@),
            None => first_next(link_parts(h@)) is None,
        },
{
    let hv = chars_of(h);
    let ps = split(&hv, ',');
    let ghost lp = link_parts(h@);
    let rel = chars_of("rel=\"next\"");
    proof { reveal_strlit("rel=\"next\""); }
    assert(rel@ == rel_next());
    let mut i: usize = 0;
    assert(lp.subrange(0, lp.len() as int) =~= lp);
    while i < ps.len()
        invariant
            i <= ps@.len(),
            views(ps@) == split_char(h@, ','),
            lp == link_parts(h@),
            lp.len() == ps@.len(),
            rel@ == rel_next(),
            first_next(lp) == first_next(lp.subrange(i as int, lp.len() as int)),
        decreases ps@.len() - i,
    {
        let p = &ps[i];
        let n = p.len();
        let b = trim_start_pos(p, 0, n);
        let e = trim_end_pos(p, b, n);
        let t = vec_of_range(p, b, e);
        proof {
            assert(p@.subrange(0, n as int) =~= p@);
            assert(views(ps@)[i as int] == p@);
            assert(t@ == trim(p@));
            assert(lp[i as int] == t@);
        }
        let ghost rest = lp.subrange(i as int, lp.len() as int);
        assert(rest[0] == t@);
        let lt = find_char(&t, 0, '<');
        let gt = find_char(&t, 0, '>');
        proof {
            assert(t@.subrange(0, t@.len() as int) =~= t@);
            crate::text::lemma_idx_of_facts(t@, '<');
            crate::text::lemma_idx_of_facts(t@, '>');
        }
        if crate::text::contains(&t, &rel) && lt < t.len() && gt < t.len() {
            return Some(t);
        }
        assert(rest.drop_first() =~= lp.subrange(i + 1, lp.len() as int));
        i += 1;
    }
    None
}

/// Whether `parse_next_link` can read the `Link` header `h`.
pub fn link_header_readable(h: &str) -> (b: bool)
    ensures
        b == link_readable(h@),
{
    match next_part(h) {
        Some(t) => {
            let lt = find_char(&t, 0, '<');
            let gt = find_char(&t, 0, '>');
            assert(t@.subrange(0, t@.len() as int) =~= t@);
            lt < gt
        },
        None => true,
    }
}

/// The URL of the next page that a `Link` header names, if it names one.
pub fn parse_next_link(h: &str) -> (r: Option<String>)
    requires
        link_readable(h@),
    ensures
        match r {
            Some(u) => spec_next_link(h@) == Some(u@),
            None => spec_next_link(h@) is None,
        },
{
    match next_part(h) {
        Some(t) => {
            let lt = find_char(&t, 0, '<');
            let gt = find_char(&t, 0, '>');
            proof {
                assert(t@.subrange(0, t@.len() as int) =~= t@);
                crate::text::lemma_idx_of_facts(t@, '>');
            }
            Some(string_of_range(&t, lt + 1, gt))
        },
        None => None,
    }
}

// ---------------------------------------------------------------------------
// Remotes

/// `url` without trailing ".git" (all repetitions of it).
pub open spec fn without_git_suffix(url: Seq<char>) -> Seq<char> {
    trim_end_matches(url, ".git"@)
}

/// Owner and repository after `prefix`, split at the first '/'.
pub open spec fn remote_pair(u: Seq<char>, prefix: Seq<char>) -> Option<(Seq<char>, Seq<char>)> {
    let parts = splitn_char(u.skip(prefix.len() as int), 2, '/');
    if match_at(u, 0, prefix) && parts.len() == 2 {
        Some((parts[0], parts[1]))
    } else {
        None
    }
}

/// Owner and repository of a GitHub remote URL (https or ssh form).
pub open spec fn spec_parse_github_remote(url: Seq<char>) -> Option<(Seq<char>, Seq<char>)> {
    let u = without_git_suffix(url);
    match remote_pair(u, "https://github.com/"@) {
        Some(p) => Some(p),
        None => remote_pair(u, "git@github.com:"@),
    }
}

pub open spec fn pair_view(o: Option<(String, String)>) -> Option<(Seq<char>, Seq<char>)> {
    match o {
        Some(p) => Some((p.0@, p.1@)),
        None => None,
    }
}

fn strip_git_suffix(v: &Vec<char>) -> (r: Vec<char>)
    ensures
        r@ == without_git_suffix(v@),
{
    let suffix = chars_of(".git");
    let ghost p = suffix@;
    let mut end = v.len();
    assert(v@.subrange(0, end as int) =~= v@);
    while end >= suffix.len() && matches_at(v, end - suffix.len(), &suffix)
        invariant
            end <= v@.len(),
            p == ".git"@,
            suffix@ == p,
            trim_end_matches(v@.subrange(0, end as int), p) == trim_end_matches(v@, p),
        decreases end,
    {
        proof {
            reveal_strlit(".git");
            let t = v@.subrange(0, end as int);
            assert(t.subrange(t.len() - p.len(), t.len() as int) =~= v@.subrange(end - p.len(), end as int));
            assert(t.subrange(0, t.len() - p.len()) =~= v@.subrange(0, end - p.len()));
        }
        end = end - suffix.len();
    }
    proof {
        reveal_strlit(".git");
        let t = v@.subrange(0, end as int);
        if end >= p.len() {
            assert(t.subrange(t.len() - p.len(), t.len() as int) =~= v@.subrange(end - p.len(), end as int));
        }
    }
    vec_of_range(v, 0, end)
}

fn pair_after(u: &Vec<char>, prefix: &str) -> (r: Option<(String, String)>)
    ensures
        pair_view(r) == remote_pair(u@, prefix@),
{
    let pv = chars_of(prefix);
    if !matches_at(u, 0, &pv) {
        return None;
    }
    let rest = vec_of_range(u, pv.len(), u.len());
    assert(rest@ =~= u@.skip(prefix@.len() as int));
    let parts = splitn(&rest, 2, '/');
    if parts.len() == 2 {
        assert(parts@[0]@ == views(parts@)[0] && parts@[1]@ == views(parts@)[1]);
        let a = string_of_range(&parts[0], 0, parts[0].len());
        let b = string_of_range(&parts[1], 0, parts[1].len());
        assert(parts@[0]@.subrange(0, parts@[0]@.len() as int) =~= parts@[0]@);
        assert(parts@[1]@.subrange(0, parts@[1]@.len() as int) =~= parts@[1]@);
        Some((a, b))
    } else {
        None
    }
}

fn parse_github_remote(url: &str) -> (r: Option<(String, String)>)
    ensures
        pair_view(r) == spec_parse_github_remote(url@),
{
    let uv = chars_of(url);
    let u = strip_git_suffix(&uv);
    match pair_after(&u, "https://github.com/") {
        Some(p) => Some(p),
        None => pair_after(&u, "git@github.com:"),
    }
}

/// Whether `r` ends with `.git`.
pub open spec fn ends_with_git(r: Seq<char>) -> bool {
    r.len() >= 4 && r.subrange(r.len() - 4, r.len() as int) == ".git"@
}

proof fn lemma_no_git_suffix(pre: Seq<char>, repo: Seq<char>)
    requires
        !ends_with_git(repo),
    ensures
        without_git_suffix(pre + "/"@ + repo) == pre + "/"@ + repo,
        without_git_suffix(pre + "/"@ + repo + ".git"@) == pre + "/"@ + repo,
{
    reveal_strlit(".git");
    reveal_strlit("/");
    let u = pre + "/"@ + repo;
    let g = ".git"@;
    if u.len() >= 4 && u.subrange(u.len() - 4, u.len() as int) == g {
        if repo.len() >= 4 {
            assert(u.subrange(u.len() - 4, u.len() as int) =~= repo.subrange(repo.len() - 4, repo.len() as int));
        } else {
            let o = 3 - repo.len();
            assert(u[pre.len() as int] == '/');
            assert(u.subrange(u.len() - 4, u.len() as int)[o] == u[pre.len() as int]);
        }
    }
    assert(!(u.len() >= 4 && u.subrange(u.len() - 4, u.len() as int) == g));
    assert(trim_end_matches(u, g) == u);
    let v = u + g;
    assert(v.subrange(v.len() - 4, v.len() as int) =~= g);
    assert(v.subrange(0, v.len() - 4) =~= u);
    assert(trim_end_matches(v, g) == trim_end_matches(u, g));
}

proof fn lemma_remote_pair(prefix: Seq<char>, owner: Seq<char>, repo: Seq<char>)
    requires
        !owner.contains('/'),
    ensures
        remote_pair(prefix + owner + "/"@ + repo, prefix) == Some((owner, repo)),
{
    reveal_strlit("/");
    let u = prefix + owner + "/"@ + repo;
    let w = owner + "/"@ + repo;
    assert(u.subrange(0, prefix.len() as int) =~= prefix);
    assert(u.skip(prefix.len() as int) =~= w);
    assert forall|j: int| 0 <= j < owner.len() implies w[j] != '/' by {
        assert(w[j] == owner[j]);
    }
    crate::text::lemma_idx_of(w, '/', owner.len() as int);
    assert(w.take(owner.len() as int) =~= owner);
    assert(w.skip(owner.len() as int + 1) =~= repo);
    assert(splitn_char(repo, 1, '/') == seq![repo]);
    assert(splitn_char(w, 2, '/') =~= seq![owner, repo]);
    assert(match_at(u, 0, prefix));
}

/// An https remote and an ssh remote of a repository give the same owner and
/// repository, with the `.git` suffix or without it.
pub proof fn law_remote_forms_agree(owner: Seq<char>, repo: Seq<char>)
    requires
        !owner.contains('/'),
        !ends_with_git(repo),
    ensures
        spec_parse_github_remote("https://github.com/"@ + owner + "/"@ + repo + ".git"@) == Some((owner, repo)),
        spec_parse_github_remote("https://github.com/"@ + owner + "/"@ + repo) == Some((owner, repo)),
        spec_parse_github_remote("git@github.com:"@ + owner + "/"@ + repo + ".git"@) == Some((owner, repo)),
        spec_parse_github_remote("git@github.com:"@ + owner + "/"@ + repo) == Some((owner, repo)),
{
    reveal_strlit("https://github.com/");
    reveal_strlit("git@github.com:");
    let hp = "https://github.com/"@;
    let sp = "git@github.com:"@;
    lemma_no_git_suffix(hp + owner, repo);
    lemma_no_git_suffix(sp + owner, repo);
    assert(hp + owner + "/"@ + repo + ".git"@ == (hp + owner) + "/"@ + repo + ".git"@);
    lemma_remote_pair(hp, owner, repo);
    lemma_remote_pair(sp, owner, repo);
    let su = sp + owner + "/"@ + repo;
    assert(su[0] == 'g');
    if match_at(su, 0, hp) {
        assert(su.subrange(0, hp.len() as int)[0] == su[0]);
    }
}

/// Owner and repository of a GitHub remote URL.
pub fn parse_github_remote_pub(url: &str) -> (r: Option<(String, String)>)
    ensures
        pair_view(r) == spec_parse_github_remote(url@),
{
    parse_github_remote(url)
}

// ---------------------------------------------------------------------------
// Token and branch resolution

pub open spec fn nonempty(o: Option<String>) -> bool {
    match o {
        Some(s) => s@.len() > 0,
        None => false,
    }
}

pub open spec fn no_credentials_message() -> Seq<char> {
    "fp: no GitHub credentials found.\n  Option 1: export GITHUB_TOKEN=<token>\n  Option 2: gh auth login"@
}

/// The token to use: the environment's when non-empty, else gh's when non-empty;
/// an error naming both remedies otherwise.
pub fn resolve_github_token_with(env_token: Option<String>, gh_token: Option<String>) -> (r: Result<String, String>)
    ensures
        nonempty(env_token) ==> r == Ok::<String, String>(env_token->0),
        !nonempty(env_token) && nonempty(gh_token) ==> r == Ok::<String, String>(gh_token->0),
        !nonempty(env_token) && !nonempty(gh_token) ==> r is Err && r->Err_0@ == no_credentials_message(),
{
    if let Some(t) = env_token {
        if !t.as_str().is_empty() {
            return Ok(t);
        }
    }
    if let Some(t) = gh_token {
        if !t.as_str().is_empty() {
            return Ok(t);
        }
    }
    Err(String::from_str("fp: no GitHub credentials found.\n  Option 1: export GITHUB_TOKEN=<token>\n  Option 2: gh auth login"))
}

pub open spec fn untracked_branch_message(pr: u64) -> Seq<char> {
    "fp: could not determine branch for PR #"@ + dec(pr as nat) + ".\nRun: fp track "@ + dec(pr as nat)
        + " --branch <branch-name>"@
}

/// The branch of a tracked pull request: the explicit one when non-empty, else
/// the fetched one when non-empty; an error with the command to run otherwise.
pub fn resolve_track_branch(explicit: Option<String>, fetched: Option<String>, pr_number: u64) -> (r: Result<String, String>)
    ensures
        nonempty(explicit) ==> r == Ok::<String, String>(explicit->0),
        !nonempty(explicit) && nonempty(fetched) ==> r == Ok::<String, String>(fetched->0),
        !nonempty(explicit) && !nonempty(fetched) ==> r is Err && r->Err_0@ == untracked_branch_message(pr_number),
{
    if let Some(b) = explicit {
        if !b.as_str().is_empty() {
            return Ok(b);
        }
    }
    if let Some(b) = fetched {
        if !b.as_str().is_empty() {
            return Ok(b);
        }
    }
    let mut m = String::from_str("fp: could not determine branch for PR #");
    push_u64(&mut m, pr_number);
    push_str(&mut m, ".\nRun: fp track ");
    push_u64(&mut m, pr_number);
    push_str(&mut m, " --branch <branch-name>");
    Err(m)
}


// ---------------------------------------------------------------------------
// Scraped and generated text

pub open spec fn upload_token_marker() -> Seq<char> {
    "\"uploadToken\":\""@
}

/// The upload token in a repository page: the text between the marker
/// `"uploadToken":"` and the next '"'.
pub open spec fn spec_upload_token(html: Seq<char>) -> Option<Seq<char>> {
    let m = upload_token_marker();
    let start = find(html, m);
    let rest = html.skip(start + m.len());
    if start != -1 && idx_of(rest, '"') < rest.len() {
        Some(rest.take(idx_of(rest, '"')))
    } else {
        None
    }
}

pub fn parse_upload_token(html: &str) -> (r: Result<String, String>)
    ensures
        match spec_upload_token(html@) {
            Some(t) => r is Ok && r->Ok_0@ == t,
            None => r is Err && r->Err_0@ == "uploadToken not found in page HTML"@,
        },
{
    let hv = chars_of(html);
    let marker = chars_of("\"uploadToken\":\"");
    if let Some(start) = find_sub(&hv, 0, &marker) {
        proof { lemma_find_facts(hv@, marker@, 0); }
        assert(match_at(hv@, start as int, marker@));
        let n = hv.len();
        let ml = marker.len();
        assert(start + ml <= n);
        let from = start + ml;
        let end = find_char(&hv, from, '"');
        assert(hv@.subrange(from as int, hv@.len() as int) =~= hv@.skip(start + marker@.len()));
        if end < hv.len() {
            let tok = string_of_range(&hv, from, end);
            assert(hv@.skip(start + marker@.len()).take(end - from) =~= hv@.subrange(from as int, end as int));
            return Ok(tok);
        }
    }
    Err(String::from_str("uploadToken not found in page HTML"))
}

/// The URL of the first markdown link `..](url)` on a line of `out`, searching
/// line by line.
pub open spec fn link_in_line(l: Seq<char>) -> Option<Seq<char>> {
    let start = find(l, "]("@);
    let rest = l.skip(start + 2);
    if start != -1 && idx_of(rest, ')') < rest.len() {
        Some(rest.take(idx_of(rest, ')')))
    } else {
        None
    }
}

pub open spec fn first_link(ls: Seq<Seq<char>>) -> Option<Seq<char>>
    decreases ls.len(),
{
    if ls.len() == 0 {
        None
    } else {
        match link_in_line(ls[0]) {
            Some(u) => Some(u),
            None => first_link(ls.drop_first()),
        }
    }
}

/// The text `{:?}` gives for a string.
pub uninterp spec fn debug_text(s: Seq<char>) -> Seq<char>;

/// `format!("{:?}", s)`: the string quoted and escaped as `Debug` writes it.
#[verifier::external_body]
fn debug_quoted(s: &str) -> (r: String)
    ensures
        r@ == debug_text(s@),
{
    format!("{:?}", s)
}

fn link_of_line(l: &Vec<char>) -> (r: Option<String>)
    ensures
        match link_in_line(l@) {
            Some(u) => r is Some && r->0@ == u,
            None => r is None,
        },
{
    let marker = chars_of("](");
    proof { reveal_strlit("]("); }
    if let Some(start) = find_sub(l, 0, &marker) {
        proof { lemma_find_facts(l@, marker@, 0); }
        assert(match_at(l@, start as int, marker@));
        assert(marker@.len() == 2);
        let n = l.len();
        assert(start + 2 <= n);
        let from = start + 2;
        let end = find_char(l, from, ')');
        assert(l@.subrange(from as int, l@.len() as int) =~= l@.skip(start + 2));
        if end < l.len() {
            assert(l@.skip(start + 2).take(end - from) =~= l@.subrange(from as int, end as int));
            return Some(string_of_range(l, from, end));
        }
    }
    None
}

/// Parses the markdown output of `gh image` (e.g. `![name](url)\n`) and returns the URL.
pub fn parse_gh_image_output(output: &str) -> (r: Result<String, String>)
    ensures
        match first_link(lines(output@)) {
            Some(u) => r is Ok && r->Ok_0@ == u,
            None => r is Err && r->Err_0@ == "could not parse URL from gh image output: "@ + debug_text(output@),
        },
{
    let ov = chars_of(output);
    let ls = split_lines(&ov);
    let ghost all = views(ls@);
    let mut i: usize = 0;
    assert(all.skip(0) =~= all);
    while i < ls.len()
        invariant
            i <= ls@.len(),
            all == views(ls@),
            all == lines(output@),
            first_link(all) == first_link(all.skip(i as int)),
        decreases ls@.len() - i,
    {
        let found = link_of_line(&ls[i]);
        proof {
            let t = all.skip(i as int);
            assert(t[0] == ls@[i as int]@);
            assert(t.drop_first() =~= all.skip(i + 1));
        }
        if let Some(u) = found {
            return Ok(u);
        }
        i += 1;
    }
    assert(all.skip(ls@.len() as int) =~= Seq::<Seq<char>>::empty());
    let mut m = String::from_str("could not parse URL from gh image output: ");
    let d = debug_quoted(output);
    push_str(&mut m, d.as_str());
    Err(m)
}

/// `![Demo {n}]({url})` for each URL, numbered from 1, one per line.
pub open spec fn demo_images(urls: Seq<Seq<char>>) -> Seq<char>
    decreases urls.len(),
{
    if urls.len() == 0 {
        seq![]
    } else if urls.len() == 1 {
        "![Demo 1]("@ + urls[0] + ")"@
    } else {
        demo_images(urls.drop_last()) + "\n"@ + "![Demo "@ + dec(urls.len()) + "]("@ + urls.last() + ")"@
    }
}

pub open spec fn demo_section(urls: Seq<Seq<char>>) -> Seq<char> {
    "## Demo\n\n"@ + demo_images(urls)
}

/// A body with its `## Demo` section replaced (or added) by one listing `urls`.
pub open spec fn spec_inject_demo_section(body: Seq<char>, urls: Seq<Seq<char>>) -> Seq<char> {
    let pos = find(body, "\n## Demo"@);
    if pos != -1 {
        trim_end(body.take(pos)) + "\n\n"@ + demo_section(urls)
    } else if match_at(body, 0, "## Demo"@) {
        demo_section(urls)
    } else {
        trim_end(body) + "\n\n"@ + demo_section(urls)
    }
}

fn push_demo_section(s: &mut String, urls: &Vec<String>)
    ensures
        final(s)@ == old(s)@ + demo_section(urls@.map_values(|u: String| u@)),
{
    let ghost us = urls@.map_values(|u: String| u@);
    let ghost s0 = s@;
    push_str(s, "## Demo\n\n");
    let ghost s1 = s@;
    let mut i: usize = 0;
    assert(us.take(0) =~= Seq::<Seq<char>>::empty());
    while i < urls.len()
        invariant
            i <= urls@.len(),
            us == urls@.map_values(|u: String| u@),
            s@ == s1 + demo_images(us.take(i as int)),
            s1 == s0 + "## Demo\n\n"@,
        decreases urls@.len() - i,
    {
        let ghost nxt = us.take(i + 1);
        assert(nxt.drop_last() =~= us.take(i as int));
        assert(nxt.last() == urls@[i as int]@);
        if i > 0 {
            push_str(s, "\n");
        } else {
            assert(nxt =~= seq![urls@[i as int]@]);
        }
        push_str(s, "![Demo ");
        push_u64(s, (i as u64) + 1);
        push_str(s, "](");
        push_str(s, urls[i].as_str());
        push_str(s, ")");
        proof {
            if i == 0 {
                reveal_strlit("![Demo 1](");
                reveal_strlit("![Demo ");
                reveal_strlit("](");
                assert(dec(1) =~= seq!['1']);
                assert("![Demo "@ + dec(1) + "]("@ =~= "![Demo 1]("@);
            }
        }
        assert(s@ =~= s1 + demo_images(nxt));
        i += 1;
    }
    assert(us.take(urls@.len() as int) =~= us);
}

/// Injects or replaces a `## Demo` section in a PR body with numbered image markdown entries.
pub fn inject_demo_section(body: &str, urls: &Vec<String>) -> (r: String)
    ensures
        r@ == spec_inject_demo_section(body@, urls@.map_values(|u: String| u@)),
{
    let bv = chars_of(body);
    let marker = chars_of("\n## Demo");
    let head = chars_of("## Demo");
    let mut out = String::new();
    match find_sub(&bv, 0, &marker) {
        Some(pos) => {
            proof { lemma_find_facts(bv@, marker@, 0); }
            let e = trim_end_pos(&bv, 0, pos);
            push_range(&mut out, &bv, 0, e);
            assert(bv@.subrange(0, pos as int) =~= bv@.take(pos as int));
            push_str(&mut out, "\n\n");
            push_demo_section(&mut out, urls);
        },
        None => {
            if matches_at(&bv, 0, &head) {
                push_demo_section(&mut out, urls);
            } else {
                let n = bv.len();
                let e = trim_end_pos(&bv, 0, n);
                assert(bv@.subrange(0, n as int) =~= bv@);
                push_range(&mut out, &bv, 0, e);
                push_str(&mut out, "\n\n");
                push_demo_section(&mut out, urls);
            }
        },
    }
    out
}


/// No image line breaks: each line break in the images is followed by the next
/// image, and the images start with one.
proof fn lemma_demo_images_breaks(us: Seq<Seq<char>>)
    requires
        forall|k: int| 0 <= k < us.len() ==> !(#[trigger] us[k]).contains('\n'),
    ensures
        us.len() > 0 ==> demo_images(us).len() > 0 && demo_images(us)[0] == '!',
        forall|j: int| 0 <= j < demo_images(us).len() && #[trigger] demo_images(us)[j] == '\n'
            ==> j + 1 < demo_images(us).len() && demo_images(us)[j + 1] == '!',
    decreases us.len(),
{
    reveal_strlit("![Demo 1](");
    reveal_strlit(")");
    reveal_strlit("\n");
    reveal_strlit("![Demo ");
    reveal_strlit("](");
    if us.len() == 1 {
        let s = demo_images(us);
        let u = us[0];
        assert forall|j: int| 0 <= j < s.len() implies s[j] != '\n' by {
            if 10 <= j < 10 + u.len() {
                assert(s[j] == u[j - 10]);
                assert(!u.contains('\n'));
            }
        }
    } else if us.len() > 1 {
        let p = us.drop_last();
        assert forall|k: int| 0 <= k < p.len() implies !(#[trigger] p[k]).contains('\n') by {
            assert(p[k] == us[k]);
        }
        lemma_demo_images_breaks(p);
        lemma_dec_digits(us.len());
        let d = dec(us.len());
        let u = us.last();
        let pi = demo_images(p);
        let a = "![Demo "@ + d + "]("@ + u + ")"@;
        let s = demo_images(us);
        assert(s == pi + "\n"@ + a);
        assert forall|j: int| 0 <= j < a.len() implies a[j] != '\n' by {
            if 7 <= j < 7 + d.len() {
                assert(a[j] == d[j - 7]);
                assert(is_digit(d[j - 7]));
            } else if 9 + d.len() <= j < 9 + d.len() + u.len() {
                assert(a[j] == u[j - 9 - d.len()]);
                assert(!u.contains('\n'));
            }
        }
        assert forall|j: int| 0 <= j < s.len() && #[trigger] s[j] == '\n' implies j + 1 < s.len() && s[j + 1] == '!' by {
            if j < pi.len() {
                assert(s[j] == pi[j]);
                assert(s[j + 1] == pi[j + 1]);
            } else if j == pi.len() {
                assert(s[j + 1] == a[0]);
            } else {
                assert(s[j] == a[j - pi.len() - 1]);
            }
        }
        assert(s[0] == pi[0]);
    }
}

/// A demo section holds no `\n## Demo`, when no URL breaks a line.
proof fn lemma_demo_section_unmarked(us: Seq<Seq<char>>)
    requires
        forall|k: int| 0 <= k < us.len() ==> !(#[trigger] us[k]).contains('\n'),
    ensures
        find(demo_section(us), "\n## Demo"@) == -1,
        match_at(demo_section(us), 0, "## Demo"@),
{
    reveal_strlit("\n## Demo");
    reveal_strlit("## Demo");
    reveal_strlit("## Demo\n\n");
    let m = "\n## Demo"@;
    let im = demo_images(us);
    let s = demo_section(us);
    lemma_demo_images_breaks(us);
    assert forall|j: int| !match_at(s, j, m) by {
        if match_at(s, j, m) {
            assert(s.subrange(j, j + 8)[0] == s[j]);
            assert(s.subrange(j, j + 8)[1] == s[j + 1]);
            assert(s[j] == '\n' && s[j + 1] == '#');
            if j >= 9 {
                assert(s[j] == im[j - 9]);
                assert(s[j + 1] == im[j - 8]);
            } else if j == 8 {
                assert(s[j + 1] == im[0]);
            }
        }
    }
    lemma_find_facts(s, m, 0);
    assert(s.subrange(0, 7) =~= "## Demo"@);
}

/// Injecting a demo section into a body replaces the section that is there:
/// injecting `u1` and then `u2` gives what injecting `u2` alone gives, when no
/// URL of `u1` breaks a line.
pub proof fn law_inject_demo_section_replaces(body: Seq<char>, u1: Seq<Seq<char>>, u2: Seq<Seq<char>>)
    requires
        forall|k: int| 0 <= k < u1.len() ==> !(#[trigger] u1[k]).contains('\n'),
    ensures
        spec_inject_demo_section(spec_inject_demo_section(body, u1), u2) == spec_inject_demo_section(body, u2),
{
    reveal_strlit("\n## Demo");
    reveal_strlit("## Demo");
    reveal_strlit("\n\n");
    reveal_strlit("## Demo\n\n");
    let m = "\n## Demo"@;
    let h = "## Demo"@;
    lemma_find_facts(body, m, 0);
    let pos = find(body, m);
    if pos != -1 || !match_at(body, 0, h) {
        let x = if pos != -1 { body.take(pos) } else { body };
        let t = trim_end(x);
        lemma_trim_end(x);
        let b1 = t + "\n\n"@ + demo_section(u1);
        assert(spec_inject_demo_section(body, u1) == b1);
        let k: int = t.len() as int + 1;
        assert forall|j: int| 0 <= j < k implies !match_at(b1, j, m) by {
            if match_at(b1, j, m) {
                if j + 8 <= t.len() {
                    assert forall|i: int| 0 <= i < 8 implies #[trigger] b1[j + i] == body[j + i] by {
                        assert(b1[j + i] == t[j + i]);
                        assert(t[j + i] == x[j + i]);
                    }
                    assert(b1.subrange(j, j + 8) =~= body.subrange(j, j + 8));
                    assert(match_at(body, j, m));
                } else {
                    let o = t.len() - j;
                    assert(b1[t.len() as int] == '\n');
                    assert(b1.subrange(j, j + 8)[o] == b1[t.len() as int]);
                    assert(b1[t.len() as int + 1] == '\n');
                    if o == 0 {
                        assert(b1.subrange(j, j + 8)[1] == b1[t.len() as int + 1]);
                    }
                }
            }
        }
        assert(b1.subrange(k, k + 8) =~= m);
        lemma_find_from(b1, m, 0, k);
        assert(b1.take(k) =~= t.push('\n'));
        lemma_trim_end_newline(t);
    } else {
        lemma_demo_section_unmarked(u1);
    }
}

// ---------------------------------------------------------------------------
// Threads

pub open spec fn is_open_state(s: ThreadState) -> bool {
    s == ThreadState::Open || s == ThreadState::Stale
}

pub open spec fn ref_models(ts: Seq<&Thread>) -> Seq<ThreadModel> {
    ts.map_values(|t: &Thread| crate::pr_state::thread_model(*t))
}

/// The threads that still ask something of the author: open or stale ones, in order.
pub fn fetch_open_threads(threads: &Vec<Thread>) -> (r: Vec<&Thread>)
    ensures
        ref_models(r@) == thread_models(threads@).filter(|t: ThreadModel| is_open_state(t.state)),
{
    let ghost pred = |t: ThreadModel| is_open_state(t.state);
    let ghost all = thread_models(threads@);
    let mut r: Vec<&Thread> = Vec::new();
    let mut i: usize = 0;
    assert(all.take(0) =~= Seq::<ThreadModel>::empty());
    while i < threads.len()
        invariant
            i <= threads@.len(),
            all == thread_models(threads@),
            pred == (|t: ThreadModel| is_open_state(t.state)),
            ref_models(r@) == all.take(i as int).filter(pred),
        decreases threads@.len() - i,
    {
        let t = &threads[i];
        let keep = t.state == ThreadState::Open || t.state == ThreadState::Stale;
        let ghost before = ref_models(r@);
        if keep {
            r.push(t);
            assert(ref_models(r@) =~= before.push(crate::pr_state::thread_model(*t)));
        }
        proof {
            reveal_with_fuel(Seq::<_>::filter, 1);
            let nxt = all.take(i + 1);
            assert(nxt.drop_last() =~= all.take(i as int));
            assert(nxt.last() == crate::pr_state::thread_model(threads@[i as int]));
            assert(pred(nxt.last()) == keep);
        }
        i += 1;
    }
    assert(all.take(threads@.len() as int) =~= all);
    r
}

/// Where a reply to a thread goes.
pub enum ReplyRoute {
    /// A reply in an inline comment thread (`pulls/{n}/comments/{id}/replies`).
    CommentReply { comment_id: u64, body: String },
    /// A conversation comment on the pull request (`issues/{n}/comments`).
    PrComment { body: String },
}

/// Route a reply by thread kind: inline threads (with a file) get a reply to their
/// root comment; others get a conversation comment that mentions their author.
pub fn reply_to_thread(thread: &Thread, body: &str) -> (r: ReplyRoute)
    ensures
        thread.file is Some ==> (r matches ReplyRoute::CommentReply { comment_id, body: b }
            && comment_id == thread.id && b@ == body@),
        thread.file is None ==> (r matches ReplyRoute::PrComment { body: b }
            && b@ == "@"@ + thread.author@ + " "@ + body@),
{
    if thread.file.is_some() {
        ReplyRoute::CommentReply { comment_id: thread.id, body: copy_str(body) }
    } else {
        let mut b = String::from_str("@");
        push_str(&mut b, thread.author.as_str());
        push_str(&mut b, " ");
        push_str(&mut b, body);
        ReplyRoute::PrComment { body: b }
    }
}

// ---------------------------------------------------------------------------
// Merge method cache

pub open spec fn cache_key(owner: Seq<char>, repo: Seq<char>) -> Seq<char> {
    owner + "/"@ + repo
}

pub open spec fn entry_views(c: Seq<(String, String)>) -> Seq<(Seq<char>, Seq<char>)> {
    c.map_values(|p: (String, String)| (p.0@, p.1@))
}

/// The value of the first entry of `c` with key `k`.
pub open spec fn cache_lookup(c: Seq<(Seq<char>, Seq<char>)>, k: Seq<char>) -> Option<Seq<char>>
    decreases c.len(),
{
    if c.len() == 0 {
        None
    } else if c[0].0 == k {
        Some(c[0].1)
    } else {
        cache_lookup(c.drop_first(), k)
    }
}

fn lookup(cache: &Vec<(String, String)>, key: &str) -> (r: Option<String>)
    ensures
        match cache_lookup(entry_views(cache@), key@) {
            Some(v) => r is Some && r->0@ == v,
            None => r is None,
        },
{
    let ghost c = entry_views(cache@);
    let mut i: usize = 0;
    assert(c.skip(0) =~= c);
    while i < cache.len()
        invariant
            i <= cache@.len(),
            c == entry_views(cache@),
            cache_lookup(c, key@) == cache_lookup(c.skip(i as int), key@),
        decreases cache@.len() - i,
    {
        proof {
            assert(c.skip(i as int)[0] == (cache@[i as int].0@, cache@[i as int].1@));
            assert(c.skip(i as int).drop_first() =~= c.skip(i + 1));
        }
        if crate::text::str_eq(cache[i].0.as_str(), key) {
            return Some(cache[i].1.clone());
        }
        i += 1;
    }
    assert(c.skip(cache@.len() as int) =~= Seq::<(Seq<char>, Seq<char>)>::empty());
    None
}

/// The merge method remembered for `owner/repo`, if any. Resolving a merge
/// method asks GitHub only when this gives nothing, and then remembers the
/// answer with `remember_merge_method`.
pub fn cached_merge_method(cache: &Vec<(String, String)>, owner: &str, repo: &str) -> (r: Option<String>)
    ensures
        match cache_lookup(entry_views(cache@), cache_key(owner@, repo@)) {
            Some(m) => r matches Some(x) && x@ == m,
            None => r is None,
        },
{
    let mut key = String::from_str(owner);
    push_str(&mut key, "/");
    push_str(&mut key, repo);
    lookup(cache, key.as_str())
}

/// Remember `m` as the merge method of `owner/repo`.
pub fn remember_merge_method(cache: &mut Vec<(String, String)>, owner: &str, repo: &str, m: &str)
    ensures
        entry_views(final(cache)@) == entry_views(old(cache)@).push((cache_key(owner@, repo@), m@)),
{
    let mut key = String::from_str(owner);
    push_str(&mut key, "/");
    push_str(&mut key, repo);
    let ghost before = entry_views(cache@);
    cache.push((key, copy_str(m)));
    assert(entry_views(cache@) =~= before.push((cache_key(owner@, repo@), m@)));
}

// ---------------------------------------------------------------------------
// Browser session

pub open spec fn no_session_message() -> Seq<char> {
    "no GitHub session found — set GITHUB_USER_SESSION env var or log into GitHub in Chrome"@
}

/// Reading the session cookie from Chrome's database is only done on macOS; on
/// other systems there is no session to find.
pub fn extract_github_session_from_browser_with_chrome_db(chrome_db: &str) -> (r: Result<String, String>)
    ensures
        r is Err && r->Err_0@ == no_session_message(),
{
    Err(String::from_str("no GitHub session found — set GITHUB_USER_SESSION env var or log into GitHub in Chrome"))
}

// ---------------------------------------------------------------------------
// Uploading an image

/// What follows the last `c` in `s`; all of `s` when it holds none.
pub open spec fn after_last(s: Seq<char>, c: char) -> Seq<char>
    decreases s.len(),
{
    if s.len() == 0 {
        s
    } else if s.last() == c {
        seq![]
    } else {
        after_last(s.drop_last(), c).push(s.last())
    }
}

proof fn lemma_after_last(s: Seq<char>, c: char, e: int)
    requires
        0 <= e <= s.len(),
        forall|j: int| e <= j < s.len() ==> s[j] != c,
        e == 0 || s[e - 1] == c,
    ensures
        after_last(s, c) == s.subrange(e, s.len() as int),
    decreases s.len(),
{
    if s.len() > e {
        lemma_after_last(s.drop_last(), c, e);
        assert(s.subrange(e, s.len() as int) =~= s.drop_last().subrange(e, s.len() - 1).push(s.last()));
    } else if e == 0 {
        assert(s.subrange(e, s.len() as int) =~= s);
    } else {
        assert(s.subrange(e, s.len() as int) =~= Seq::<char>::empty());
    }
}

/// The content type of an image whose extension, in lower case, is `ext`.
pub open spec fn mime_of_extension(ext: Seq<char>) -> Seq<char> {
    if ext == "png"@ {
        "image/png"@
    } else if ext == "jpg"@ || ext == "jpeg"@ {
        "image/jpeg"@
    } else if ext == "gif"@ {
        "image/gif"@
    } else if ext == "webp"@ {
        "image/webp"@
    } else if ext == "svg"@ {
        "image/svg+xml"@
    } else {
        "application/octet-stream"@
    }
}

/// The content type of an image file, from the lower case of its extension
/// (what follows its last dot).
pub open spec fn spec_mime_type(filename: Seq<char>) -> Seq<char> {
    mime_of_extension(lowercase(after_last(filename, '.')))
}

/// The content type of an image whose extension, already in lower case, is
/// `ext`.
pub fn mime_type_for_extension(ext: &str) -> (r: &'static str)
    ensures
        r@ == mime_of_extension(ext@),
{
    if str_eq(ext, "png") {
        "image/png"
    } else if str_eq(ext, "jpg") || str_eq(ext, "jpeg") {
        "image/jpeg"
    } else if str_eq(ext, "gif") {
        "image/gif"
    } else if str_eq(ext, "webp") {
        "image/webp"
    } else if str_eq(ext, "svg") {
        "image/svg+xml"
    } else {
        "application/octet-stream"
    }
}

pub fn mime_type_from_filename(filename: &str) -> (r: &'static str)
    ensures
        r@ == spec_mime_type(filename@),
{
    let v = chars_of(filename);
    let mut e: usize = v.len();
    while e > 0 && v[e - 1] != '.'
        invariant
            e <= v@.len(),
            forall|j: int| e <= j < v@.len() ==> v@[j] != '.',
        decreases e,
    {
        e -= 1;
    }
    proof { lemma_after_last(v@, '.', e as int); }
    let ext = string_of_range(&v, e, v.len());
    let lower = to_lowercase(ext.as_str());
    mime_type_for_extension(lower.as_str())
}

/// The cookie header that carries the browser session `session`.
pub fn upload_cookie_header(session: &str) -> (r: String)
    ensures
        r@ == "user_session="@ + session@ + "; __Host-user_session_same_site="@ + session@,
{
    let mut r = String::from_str("user_session=");
    push_str(&mut r, session);
    push_str(&mut r, "; __Host-user_session_same_site=");
    push_str(&mut r, session);
    r
}

/// Whether the storage upload answered with status `status` failed: it is no
/// success (2xx) and no 204.
pub fn s3_upload_failed(status: u16) -> (b: bool)
    ensures
        b == (!(200 <= status <= 299) && status != 204),
{
    !(200 <= status && status <= 299) && status != 204
}

// ---------------------------------------------------------------------------
// Records of other requests

/// Where and how to upload an image, as GitHub's upload policy gives it.
#[derive(Debug, Clone)]
pub struct UploadPolicy {
    pub upload_url: String,
    pub asset_id: u64,
    pub asset_href: String,
    pub asset_upload_authenticity_token: String,
    pub form_fields: Vec<(String, String)>,
}

/// A resolved review thread.
#[derive(Debug, Clone)]
pub struct ResolvedThreadInfo {
    pub body: String,
    pub file: Option<String>,
    pub line: Option<u32>,
    pub resolved_by: Option<String>,
    pub created_at: Option<String>,
    pub first_commit_after_opened: Option<String>,
}


// ---------------------------------------------------------------------------
// Resolved review threads

/// A commit of a pull request as the GraphQL reply gives it (empty where the
/// reply has no such field).
pub struct GraphqlCommit {
    pub committed_date: String,
    pub oid: String,
    pub headline: String,
}

/// A review thread as the GraphQL reply gives it: whether it is resolved, who
/// resolved it, and its first comment.
pub struct GraphqlThread {
    pub is_resolved: Option<bool>,
    pub resolved_by: Option<String>,
    pub created_at: Option<String>,
    pub body: Option<String>,
    pub path: Option<String>,
    pub line: Option<u64>,
}

pub struct ResolvedInfoView {
    pub body: Seq<char>,
    pub file: Option<Seq<char>>,
    pub line: Option<u32>,
    pub resolved_by: Option<Seq<char>>,
    pub created_at: Option<Seq<char>>,
    pub first_commit_after_opened: Option<Seq<char>>,
}

pub open spec fn resolved_info_view(r: ResolvedThreadInfo) -> ResolvedInfoView {
    ResolvedInfoView {
        body: r.body@,
        file: opt_view(r.file),
        line: r.line,
        resolved_by: opt_view(r.resolved_by),
        created_at: opt_view(r.created_at),
        first_commit_after_opened: opt_view(r.first_commit_after_opened),
    }
}

/// The first commit made after `opened` (comparing the timestamps as text), as
/// its short id and headline.
pub open spec fn first_commit_after(commits: Seq<GraphqlCommit>, opened: Seq<char>) -> Option<Seq<char>>
    decreases commits.len(),
{
    if commits.len() == 0 {
        None
    } else if seq_lt(opened, commits[0].committed_date@) {
        Some(commits[0].oid@ + " "@ + commits[0].headline@)
    } else {
        first_commit_after(commits.drop_first(), opened)
    }
}

/// What is kept of a resolved thread.
pub open spec fn resolved_info(t: GraphqlThread, commits: Seq<GraphqlCommit>) -> ResolvedInfoView {
    ResolvedInfoView {
        body: match t.body { Some(b) => b@, None => seq![] },
        file: match t.path { Some(p) => if p@.len() > 0 { Some(p@) } else { None }, None => None },
        line: match t.line { Some(n) => Some(n as u32), None => None },
        resolved_by: opt_view(t.resolved_by),
        created_at: opt_view(t.created_at),
        first_commit_after_opened: match t.created_at { Some(c) => first_commit_after(commits, c@), None => None },
    }
}

pub open spec fn is_resolved(t: GraphqlThread) -> bool {
    t.is_resolved == Some(true)
}

fn first_commit_after_of(commits: &[GraphqlCommit], opened: &str) -> (r: Option<String>)
    ensures
        opt_view(r) == first_commit_after(commits@, opened@),
{
    let mut i: usize = 0;
    assert(commits@.subrange(0, commits@.len() as int) =~= commits@);
    while i < commits.len()
        invariant
            i <= commits@.len(),
            first_commit_after(commits@, opened@) == first_commit_after(commits@.subrange(i as int, commits@.len() as int), opened@),
        decreases commits@.len() - i,
    {
        let ghost rest = commits@.subrange(i as int, commits@.len() as int);
        assert(rest[0] == commits@[i as int]);
        let c = &commits[i];
        if crate::text::str_lt(opened, c.committed_date.as_str()) {
            let mut m = copy_str(c.oid.as_str());
            push_str(&mut m, " ");
            push_str(&mut m, c.headline.as_str());
            return Some(m);
        }
        assert(rest.drop_first() =~= commits@.subrange(i + 1, commits@.len() as int));
        i += 1;
    }
    None
}

fn resolved_of(t: &GraphqlThread, commits: &[GraphqlCommit]) -> (r: ResolvedThreadInfo)
    ensures
        resolved_info_view(r) == resolved_info(*t, commits@),
{
    let body = match &t.body {
        Some(b) => copy_str(b.as_str()),
        None => String::new(),
    };
    let file = match &t.path {
        Some(p) => if p.as_str().is_empty() { None } else { Some(copy_str(p.as_str())) },
        None => None,
    };
    let line = match t.line {
        Some(n) => Some(n as u32),
        None => None,
    };
    let first = match &t.created_at {
        Some(c) => first_commit_after_of(commits, c.as_str()),
        None => None,
    };
    ResolvedThreadInfo {
        body,
        file,
        line,
        resolved_by: crate::model::clone_opt(&t.resolved_by),
        created_at: crate::model::clone_opt(&t.created_at),
        first_commit_after_opened: first,
    }
}

/// The resolved threads among `threads`, in order, each with the first commit
/// made after it was opened.
pub fn resolved_threads(threads: &[GraphqlThread], commits: &[GraphqlCommit]) -> (r: Vec<ResolvedThreadInfo>)
    ensures
        r@.map_values(|x: ResolvedThreadInfo| resolved_info_view(x))
            == threads@.filter(|t: GraphqlThread| is_resolved(t)).map_values(|t: GraphqlThread| resolved_info(t, commits@)),
{
    let ghost pred = |t: GraphqlThread| is_resolved(t);
    let ghost f = |t: GraphqlThread| resolved_info(t, commits@);
    let mut out: Vec<ResolvedThreadInfo> = Vec::new();
    let mut i: usize = 0;
    while i < threads.len()
        invariant
            i <= threads@.len(),
            pred == (|t: GraphqlThread| is_resolved(t)),
            f == (|t: GraphqlThread| resolved_info(t, commits@)),
            out@.map_values(|x: ResolvedThreadInfo| resolved_info_view(x)) == threads@.take(i as int).filter(pred).map_values(f),
        decreases threads@.len() - i,
    {
        proof { crate::keyed::lemma_filter_take(threads@, pred, i as int); }
        let ghost before = out@.map_values(|x: ResolvedThreadInfo| resolved_info_view(x));
        let t = &threads[i];
        if t.is_resolved == Some(true) {
            out.push(resolved_of(t, commits));
            assert(out@.map_values(|x: ResolvedThreadInfo| resolved_info_view(x)) =~= before.push(f(threads@[i as int])));
        }
        i += 1;
    }
    assert(threads@.take(threads@.len() as int) =~= threads@);
    out
}


// ---------------------------------------------------------------------------
// Reading JSON replies

/// What is missing from an upload policy, checked in the order the fields are
/// read: the upload URL, the asset's id and address, the authenticity token.
pub open spec fn policy_error(v: Option<JsonValue>) -> Option<Seq<char>> {
    if text_of(field(v, "upload_url"@)) is None {
        Some("missing upload_url"@)
    } else if u64_of(field(field(v, "asset"@), "id"@)) is None {
        Some("missing asset.id"@)
    } else if text_of(field(field(v, "asset"@), "href"@)) is None {
        Some("missing asset.href"@)
    } else if text_of(field(v, "asset_upload_authenticity_token"@)) is None {
        Some("missing asset_upload_authenticity_token"@)
    } else {
        None
    }
}

/// The text of a value, or "" when it is not a string.
pub open spec fn text_or_blank(v: Option<JsonValue>) -> Seq<char> {
    match text_of(v) {
        Some(s) => s,
        None => Seq::empty(),
    }
}

/// `p` is the upload policy that `v` describes: its four fields, and each member
/// of the `form` object (none when there is no such object) with its text, ""
/// for a value that is not a string.
pub open spec fn policy_of(p: UploadPolicy, v: JsonValue) -> bool {
    let form = members_of(field(Some(v), "form"@));
    &&& Some(p.upload_url@) == text_of(field(Some(v), "upload_url"@))
    &&& Some(p.asset_id) == u64_of(field(field(Some(v), "asset"@), "id"@))
    &&& Some(p.asset_href@) == text_of(field(field(Some(v), "asset"@), "href"@))
    &&& Some(p.asset_upload_authenticity_token@) == text_of(field(Some(v), "asset_upload_authenticity_token"@))
    &&& p.form_fields@.len() == form.len()
    &&& forall|i: int| 0 <= i < form.len() ==> (#[trigger] p.form_fields@[i]).0@ == form[i].0@
        && p.form_fields@[i].1@ == text_or_blank(Some(form[i].1))
}

/// The upload policy a JSON reply describes, or the first required field it
/// lacks.
pub fn upload_policy_from_json(v: &JsonValue) -> (r: Result<UploadPolicy, String>)
    ensures
        r is Ok <==> policy_error(Some(*v)) is None,
        r matches Err(e) ==> policy_error(Some(*v)) == Some(e@),
        r matches Ok(p) ==> policy_of(p, *v),
{
    let upload_url = match get_text(get_field(Some(v), "upload_url")) {
        Some(s) => s,
        None => return Err(String::from_str("missing upload_url")),
    };
    let asset = get_field(Some(v), "asset");
    let asset_id = match get_u64(get_field(asset, "id")) {
        Some(n) => n,
        None => return Err(String::from_str("missing asset.id")),
    };
    let asset_href = match get_text(get_field(asset, "href")) {
        Some(s) => s,
        None => return Err(String::from_str("missing asset.href")),
    };
    let token = match get_text(get_field(Some(v), "asset_upload_authenticity_token")) {
        Some(s) => s,
        None => return Err(String::from_str("missing asset_upload_authenticity_token")),
    };
    let mut form_fields: Vec<(String, String)> = Vec::new();
    let form = get_field(Some(v), "form");
    match form {
        Some(JsonValue::Object(es)) => {
            let mut i: usize = 0;
            while i < es.len()
                invariant
                    i <= es@.len(),
                    members_of(field(Some(*v), "form"@)) == es@,
                    form_fields@.len() == i,
                    forall|j: int| 0 <= j < i ==> (#[trigger] form_fields@[j]).0@ == es@[j].0@
                        && form_fields@[j].1@ == text_or_blank(Some(es@[j].1)),
                decreases es@.len() - i,
            {
                let value = get_text_or_empty(Some(&es[i].1));
                form_fields.push((es[i].0.clone(), value));
                i += 1;
            }
        },
        _ => {},
    }
    Ok(UploadPolicy { upload_url, asset_id, asset_href, asset_upload_authenticity_token: token, form_fields })
}

/// The upload policy GitHub answers for a new asset: an error when the reply is
/// not JSON (with the parser's message) or lacks a required field.
pub fn parse_upload_policy_response(json: &str) -> (r: Result<UploadPolicy, String>)
    ensures
        json_parse(json@) is None ==> r is Err,
        json_parse(json@) matches Some(v) ==> {
            &&& r is Ok <==> policy_error(Some(v)) is None
            &&& r matches Err(e) ==> policy_error(Some(v)) == Some(e@)
            &&& r matches Ok(p) ==> policy_of(p, v)
        },
{
    match parse_json(json) {
        Ok(v) => upload_policy_from_json(&v),
        Err(e) => Err(e),
    }
}

/// The pull request a GraphQL reply is about.
pub open spec fn pr_node(v: Option<JsonValue>) -> Option<JsonValue> {
    field(field(field(v, "data"@), "repository"@), "pullRequest"@)
}

/// The review thread nodes of a GraphQL reply.
pub open spec fn thread_nodes(v: JsonValue) -> Seq<JsonValue> {
    items(field(field(pr_node(Some(v)), "reviewThreads"@), "nodes"@))
}

/// The commit nodes of a GraphQL reply.
pub open spec fn commit_nodes(v: JsonValue) -> Seq<JsonValue> {
    items(field(field(pr_node(Some(v)), "commits"@), "nodes"@))
}

/// `c` is the commit of node `n`, with "" for what the node lacks.
pub open spec fn commit_of_node(c: GraphqlCommit, n: JsonValue) -> bool {
    let x = field(Some(n), "commit"@);
    &&& c.committed_date@ == text_or_blank(field(x, "committedDate"@))
    &&& c.oid@ == text_or_blank(field(x, "abbreviatedOid"@))
    &&& c.headline@ == text_or_blank(field(x, "messageHeadline"@))
}

/// `t` is the thread of node `n`: whether it is resolved and by whom, and its
/// first comment's time, body, file and line.
pub open spec fn thread_of_node(t: GraphqlThread, n: JsonValue) -> bool {
    let first = item(field(field(Some(n), "comments"@), "nodes"@), 0);
    &&& t.is_resolved == bool_of(field(Some(n), "isResolved"@))
    &&& opt_view(t.resolved_by) == text_of(field(field(Some(n), "resolvedBy"@), "login"@))
    &&& opt_view(t.created_at) == text_of(field(first, "createdAt"@))
    &&& opt_view(t.body) == text_of(field(first, "body"@))
    &&& opt_view(t.path) == text_of(field(first, "path"@))
    &&& t.line == u64_of(field(first, "line"@))
}

pub open spec fn threads_of_reply(ts: Seq<GraphqlThread>, v: JsonValue) -> bool {
    &&& ts.len() == thread_nodes(v).len()
    &&& forall|i: int| 0 <= i < ts.len() ==> thread_of_node(#[trigger] ts[i], thread_nodes(v)[i])
}

pub open spec fn commits_of_reply(cs: Seq<GraphqlCommit>, v: JsonValue) -> bool {
    &&& cs.len() == commit_nodes(v).len()
    &&& forall|i: int| 0 <= i < cs.len() ==> commit_of_node(#[trigger] cs[i], commit_nodes(v)[i])
}

fn graphql_commit(n: &JsonValue) -> (c: GraphqlCommit)
    ensures
        commit_of_node(c, *n),
{
    let x = get_field(Some(n), "commit");
    GraphqlCommit {
        committed_date: get_text_or_empty(get_field(x, "committedDate")),
        oid: get_text_or_empty(get_field(x, "abbreviatedOid")),
        headline: get_text_or_empty(get_field(x, "messageHeadline")),
    }
}

fn graphql_thread(n: &JsonValue) -> (t: GraphqlThread)
    ensures
        thread_of_node(t, *n),
{
    let first = get_item(get_field(get_field(Some(n), "comments"), "nodes"), 0);
    GraphqlThread {
        is_resolved: get_bool(get_field(Some(n), "isResolved")),
        resolved_by: get_text(get_field(get_field(Some(n), "resolvedBy"), "login")),
        created_at: get_text(get_field(first, "createdAt")),
        body: get_text(get_field(first, "body")),
        path: get_text(get_field(first, "path")),
        line: get_u64(get_field(first, "line")),
    }
}

/// The review threads and the commits of a GraphQL reply about a pull request,
/// node for node; none where the reply has no such list.
pub fn graphql_threads(v: &JsonValue) -> (r: (Vec<GraphqlThread>, Vec<GraphqlCommit>))
    ensures
        threads_of_reply(r.0@, *v),
        commits_of_reply(r.1@, *v),
{
    let pr = get_field(get_field(get_field(Some(v), "data"), "repository"), "pullRequest");
    let mut threads: Vec<GraphqlThread> = Vec::new();
    match get_field(get_field(pr, "reviewThreads"), "nodes") {
        Some(JsonValue::Array(ns)) => {
            let mut i: usize = 0;
            while i < ns.len()
                invariant
                    i <= ns@.len(),
                    thread_nodes(*v) == ns@,
                    threads@.len() == i,
                    forall|j: int| 0 <= j < i ==> thread_of_node(#[trigger] threads@[j], ns@[j]),
                decreases ns@.len() - i,
            {
                threads.push(graphql_thread(&ns[i]));
                i += 1;
            }
        },
        _ => {},
    }
    let mut commits: Vec<GraphqlCommit> = Vec::new();
    match get_field(get_field(pr, "commits"), "nodes") {
        Some(JsonValue::Array(ns)) => {
            let mut i: usize = 0;
            while i < ns.len()
                invariant
                    i <= ns@.len(),
                    commit_nodes(*v) == ns@,
                    commits@.len() == i,
                    forall|j: int| 0 <= j < i ==> commit_of_node(#[trigger] commits@[j], ns@[j]),
                decreases ns@.len() - i,
            {
                commits.push(graphql_commit(&ns[i]));
                i += 1;
            }
        },
        _ => {},
    }
    (threads, commits)
}

/// The resolved review threads of a GraphQL reply: for each thread node marked
/// resolved, in order, what `resolved_threads` keeps of it; an error with the
/// parser's message when the reply is not JSON.
pub fn parse_resolved_review_threads_from_graphql(json: &str) -> (r: Result<Vec<ResolvedThreadInfo>, String>)
    ensures
        r is Ok <==> json_parse(json@) is Some,
        r matches Ok(x) ==> exists|ts: Seq<GraphqlThread>, cs: Seq<GraphqlCommit>|
            #![trigger threads_of_reply(ts, json_parse(json@)->0), commits_of_reply(cs, json_parse(json@)->0)]
            threads_of_reply(ts, json_parse(json@)->0) && commits_of_reply(cs, json_parse(json@)->0)
            && x@.map_values(|y: ResolvedThreadInfo| resolved_info_view(y))
                == ts.filter(|t: GraphqlThread| is_resolved(t)).map_values(|t: GraphqlThread| resolved_info(t, cs)),
{
    match parse_json(json) {
        Ok(v) => {
            let (threads, commits) = graphql_threads(&v);
            let out = resolved_threads(threads.as_slice(), commits.as_slice());
            assert(threads_of_reply(threads@, json_parse(json@)->0) && commits_of_reply(commits@, json_parse(json@)->0));
            Ok(out)
        },
        Err(e) => Err(e),
    }
}

/// Once a fetched merge method is remembered under its key, looking the key
/// up gives it, so the next resolution asks nothing.
pub proof fn law_merge_method_remembered(c: Seq<(Seq<char>, Seq<char>)>, k: Seq<char>, m: Seq<char>)
    requires
        cache_lookup(c, k) is None,
    ensures
        cache_lookup(c.push((k, m)), k) == Some(m),
    decreases c.len(),
{
    if c.len() > 0 {
        law_merge_method_remembered(c.drop_first(), k, m);
        assert(c.push((k, m)).drop_first() =~= c.drop_first().push((k, m)));
    } else {
        assert(c.push((k, m))[0] == (k, m));
    }
}

} // verus!
