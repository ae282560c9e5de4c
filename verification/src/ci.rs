//! CI providers: recognising job URLs and summarising job logs.
use vstd::prelude::*;
use crate::text::{
    chars_of, string_of_range, vec_of_range, find_char, matches_at, eq_str, split, views, sviews,
    idx_of, lemma_idx_of, lemma_idx_of_facts, match_at, split_char, parse_unsigned, parse_u64, split_lines, lines,
    last_n, join, push_joined, strings_of, contains, contains_sub, find, find_sub, all_digits,
    is_digit, push_str, push_block, block, push_u64, dec, lemma_lines_of_join, lemma_lines_no_newline, ends_with_cr,
};
use crate::model::opt_view;

verus! {

#[derive(Debug, PartialEq)]
pub enum CiProvider {
    GitHubActions { owner: String, repo: String, job_id: u64 },
    Buildkite { org: String, pipeline: String, build_num: u64 },
    Unknown(String),
}

/// What a `CiProvider` holds, as plain values.
pub enum ProviderModel {
    GitHubActions { owner: Seq<char>, repo: Seq<char>, job_id: nat },
    Buildkite { org: Seq<char>, pipeline: Seq<char>, build_num: nat },
    Unknown(Seq<char>),
}

impl View for CiProvider {
    type V = ProviderModel;

    open spec fn view(&self) -> ProviderModel {
        match self {
            CiProvider::GitHubActions { owner, repo, job_id } =>
                ProviderModel::GitHubActions { owner: owner@, repo: repo@, job_id: *job_id as nat },
            CiProvider::Buildkite { org, pipeline, build_num } =>
                ProviderModel::Buildkite { org: org@, pipeline: pipeline@, build_num: *build_num as nat },
            CiProvider::Unknown(u) => ProviderModel::Unknown(u@),
        }
    }
}

pub open spec fn u64_max() -> nat {
    18446744073709551615
}

/// `url` without its `#fragment`.
pub open spec fn without_fragment(url: Seq<char>) -> Seq<char> {
    url.take(idx_of(url, '#'))
}

/// The '/'-separated pieces of `url` after `prefix`, when `url` starts with it.
pub open spec fn path_pieces(url: Seq<char>, prefix: Seq<char>) -> Seq<Seq<char>> {
    split_char(url.skip(prefix.len() as int), '/')
}

/// `https://github.com/{owner}/{repo}/actions/runs/{run}/jobs/{job}...`
pub open spec fn is_github_actions_url(base: Seq<char>) -> bool {
    let p = path_pieces(base, "https://github.com/"@);
    &&& match_at(base, 0, "https://github.com/"@)
    &&& p.len() >= 7
    &&& p[2] == "actions"@
    &&& p[3] == "runs"@
    &&& p[5] == "jobs"@
    &&& parse_unsigned(p[6], u64_max()) is Some
}

/// `https://buildkite.com/{org}/{pipeline}/builds/{number}...`
pub open spec fn is_buildkite_url(base: Seq<char>) -> bool {
    let p = path_pieces(base, "https://buildkite.com/"@);
    &&& match_at(base, 0, "https://buildkite.com/"@)
    &&& p.len() >= 4
    &&& p[2] == "builds"@
    &&& parse_unsigned(p[3], u64_max()) is Some
}

pub open spec fn spec_parse_ci_provider(url: Seq<char>) -> ProviderModel {
    let base = without_fragment(url);
    if is_github_actions_url(base) {
        let p = path_pieces(base, "https://github.com/"@);
        ProviderModel::GitHubActions { owner: p[0], repo: p[1], job_id: parse_unsigned(p[6], u64_max())->0 }
    } else if is_buildkite_url(base) {
        let p = path_pieces(base, "https://buildkite.com/"@);
        ProviderModel::Buildkite { org: p[0], pipeline: p[1], build_num: parse_unsigned(p[3], u64_max())->0 }
    } else {
        ProviderModel::Unknown(url)
    }
}

/// A URL without a `#` is its own base.
proof fn lemma_no_fragment(u: Seq<char>)
    requires
        !u.contains('#'),
    ensures
        without_fragment(u) == u,
{
    lemma_idx_of_facts(u, '#');
    assert(u.take(u.len() as int) =~= u);
}

/// The `#fragment` of a URL plays no part in recognising it: appending one to
/// a URL without a `#` gives the same provider and the same job (a GitHub
/// Actions job URL stays that job, with the same owner, repository and job id;
/// a Buildkite build stays that build); only an unrecognised URL is kept
/// whole, fragment included.
pub proof fn law_fragment_ignored(u: Seq<char>, f: Seq<char>)
    requires
        !u.contains('#'),
    ensures
        spec_parse_ci_provider(u + seq!['#'] + f) == match spec_parse_ci_provider(u) {
            ProviderModel::Unknown(_) => ProviderModel::Unknown(u + seq!['#'] + f),
            found => found,
        },
{
    let url = u + seq!['#'] + f;
    assert forall|j: int| 0 <= j < u.len() implies url[j] != '#' by {
        assert(url[j] == u[j]);
        if u[j] == '#' {
            assert(u.contains(u[j]));
        }
    }
    assert(url[u.len() as int] == '#');
    lemma_idx_of(url, '#', u.len() as int);
    assert(url.take(u.len() as int) =~= u);
    lemma_no_fragment(u);
}

fn owned(v: &Vec<char>) -> (s: String)
    ensures
        s@ == v@,
{
    let n = v.len();
    let s = string_of_range(v, 0, n);
    assert(v@.subrange(0, n as int) =~= v@);
    s
}

/// The pieces after `prefix` when `base` starts with it.
fn pieces_after(base: &Vec<char>, prefix: &str) -> (r: Option<Vec<Vec<char>>>)
    ensures
        match r {
            Some(p) => match_at(base@, 0, prefix@) && views(p@) == path_pieces(base@, prefix@),
            None => !match_at(base@, 0, prefix@),
        },
{
    let pv = chars_of(prefix);
    if !matches_at(base, 0, &pv) {
        return None;
    }
    let rest = vec_of_range(base, pv.len(), base.len());
    assert(rest@ =~= base@.skip(prefix@.len() as int));
    Some(split(&rest, '/'))
}

/// Recognise the CI provider of a job URL.
pub fn parse_ci_provider(url: &str) -> (r: CiProvider)
    ensures
        r@ == spec_parse_ci_provider(url@),
{
    let uv = chars_of(url);
    let hash = find_char(&uv, 0, '#');
    let base = vec_of_range(&uv, 0, hash);
    assert(uv@.subrange(0, uv@.len() as int) =~= uv@);
    assert(base@ =~= without_fragment(url@));

    if let Some(p) = pieces_after(&base, "https://github.com/") {
        proof {
            assert(forall|i: int| 0 <= i < p@.len() ==> p@[i]@ == #[trigger] views(p@)[i]);
        }
        if p.len() >= 7 && eq_str(&p[2], "actions") && eq_str(&p[3], "runs") && eq_str(&p[5], "jobs") {
            if let Some(job_id) = parse_u64(&p[6]) {
                return CiProvider::GitHubActions { owner: owned(&p[0]), repo: owned(&p[1]), job_id };
            }
        }
    }
    if let Some(p) = pieces_after(&base, "https://buildkite.com/") {
        proof {
            assert(forall|i: int| 0 <= i < p@.len() ==> p@[i]@ == #[trigger] views(p@)[i]);
        }
        if p.len() >= 4 && eq_str(&p[2], "builds") {
            if let Some(build_num) = parse_u64(&p[3]) {
                return CiProvider::Buildkite { org: owned(&p[0]), pipeline: owned(&p[1]), build_num };
            }
        }
    }
    CiProvider::Unknown(String::from_str(url))
}


/// The last `n` lines of `text`, joined by '\n'.
pub open spec fn spec_tail_lines(text: Seq<char>, n: nat) -> Seq<char> {
    join(last_n(lines(text), n), "\n"@)
}

pub fn tail_lines(text: &str, n: usize) -> (r: String)
    ensures
        r@ == spec_tail_lines(text@, n as nat),
{
    let tv = chars_of(text);
    let ls = split_lines(&tv);
    let len = ls.len();
    let start: usize = if len <= n { 0 } else { len - n };
    let mut out = String::new();
    push_joined(&mut out, &ls, start, len, "\n");
    assert(views(ls@).subrange(start as int, len as int) =~= last_n(lines(text@), n as nat));
    out
}

#[derive(Debug)]
pub struct BuildkiteLogResult {
    pub step: String,
    pub error_lines: Vec<String>,
    pub context_lines: Vec<String>,
    pub log_url: String,
    pub full_log_available: bool,
}

/// The markers whose presence flags a log line as an error.
pub open spec fn error_patterns() -> Seq<Seq<char>> {
    seq!["Error:"@, "error:"@, "FAILED"@, "FAIL"@, "panic:"@, "exception"@, "Exception"@]
}

pub open spec fn has_error_pattern(l: Seq<char>) -> bool {
    exists|k: int| 0 <= k < error_patterns().len() && contains_sub(l, #[trigger] error_patterns()[k])
}

/// `{file}:{line}:{column}`, as ESLint prints the location of a problem.
pub open spec fn is_lint_location(p: Seq<char>) -> bool {
    let parts = split_char(p, ':');
    let n = parts.len();
    &&& n >= 3
    &&& parts[0].len() > 0
    &&& parts[n - 2].len() > 0
    &&& all_digits(parts[n - 2])
    &&& parts[n - 1].len() > 0
    &&& all_digits(parts[n - 1])
}

/// An ESLint error line: `{file}:{line}:{column}  error  {message}  {rule}`.
pub open spec fn is_lint_error(l: Seq<char>) -> bool {
    let i = find(l, "  error  "@);
    i != -1 && is_lint_location(l.take(i))
}

pub open spec fn is_error_line(l: Seq<char>) -> bool {
    has_error_pattern(l) || is_lint_error(l)
}

fn all_digit_chars(v: &Vec<char>) -> (r: bool)
    ensures
        r == all_digits(v@),
{
    let mut i: usize = 0;
    while i < v.len()
        invariant
            i <= v@.len(),
            forall|j: int| 0 <= j < i ==> is_digit(#[trigger] v@[j]),
        decreases v@.len() - i,
    {
        if !('0' <= v[i] && v[i] <= '9') {
            return false;
        }
        i += 1;
    }
    true
}

fn lint_error(l: &Vec<char>) -> (r: bool)
    ensures
        r == is_lint_error(l@),
{
    let marker = chars_of("  error  ");
    match find_sub(l, 0, &marker) {
        None => false,
        Some(i) => {
            proof { crate::text::lemma_find_facts(l@, marker@, 0); }
            let loc = vec_of_range(l, 0, i);
            assert(loc@ =~= l@.take(i as int));
            let parts = split(&loc, ':');
            let n = parts.len();
            proof {
                assert(forall|k: int| 0 <= k < parts@.len() ==> parts@[k]@ == #[trigger] views(parts@)[k]);
            }
            n >= 3 && parts[0].len() > 0 && parts[n - 2].len() > 0 && all_digit_chars(&parts[n - 2])
                && parts[n - 1].len() > 0 && all_digit_chars(&parts[n - 1])
        },
    }
}

fn has_pattern(l: &Vec<char>, p: &str, k: Ghost<int>) -> (r: bool)
    requires
        0 <= k@ < error_patterns().len(),
        p@ == error_patterns()[k@],
    ensures
        r ==> has_error_pattern(l@),
        !r ==> !contains_sub(l@, error_patterns()[k@]),
{
    let pv = chars_of(p);
    contains(l, &pv)
}

fn error_line(l: &Vec<char>) -> (r: bool)
    ensures
        r == is_error_line(l@),
{
    let found = has_pattern(l, "Error:", Ghost(0)) || has_pattern(l, "error:", Ghost(1))
        || has_pattern(l, "FAILED", Ghost(2)) || has_pattern(l, "FAIL", Ghost(3))
        || has_pattern(l, "panic:", Ghost(4)) || has_pattern(l, "exception", Ghost(5))
        || has_pattern(l, "Exception", Ghost(6));
    if !found {
        assert(!has_error_pattern(l@)) by {
            assert forall|k: int| 0 <= k < error_patterns().len() implies !contains_sub(l@, #[trigger] error_patterns()[k]) by {
                assert(k == 0 || k == 1 || k == 2 || k == 3 || k == 4 || k == 5 || k == 6);
            }
        }
    }
    found || lint_error(l)
}

/// The context lines of a log summary are its last 50 lines, when the last of
/// them is not empty and none of the others ends with a carriage return (such
/// lines do not survive being joined and split again).
pub proof fn law_context_is_last_lines(raw: Seq<char>)
    requires
        last_n(lines(raw), 50).len() > 0 ==> last_n(lines(raw), 50).last().len() > 0,
        forall|i: int| 0 <= i < last_n(lines(raw), 50).len() - 1 ==> !ends_with_cr(#[trigger] last_n(lines(raw), 50)[i]),
    ensures
        lines(spec_tail_lines(raw, 50)) == last_n(lines(raw), 50),
{
    let t = last_n(lines(raw), 50);
    if t.len() == 0 {
        assert(join(t, "\n"@) == Seq::<char>::empty());
        assert(lines(Seq::<char>::empty()) =~= t);
    } else {
        lemma_lines_no_newline(raw);
        let all = lines(raw);
        assert forall|i: int| 0 <= i < t.len() implies !(#[trigger] t[i]).contains('\n') by {
            if all.len() > 50 {
                assert(t[i] == all[i + (all.len() - 50)]);
            }
        }
        lemma_lines_of_join(t);
    }
}

/// Extract a structured summary from a raw Buildkite log for a named step.
pub fn extract_buildkite_log(raw: &str, step: &str, log_url: &str) -> (r: BuildkiteLogResult)
    ensures
        r.step@ == step@,
        sviews(r.error_lines@) == lines(raw@).filter(|l: Seq<char>| is_error_line(l)),
        sviews(r.context_lines@) == lines(spec_tail_lines(raw@, 50)),
        r.log_url@ == log_url@,
        r.full_log_available,
{
    let rv = chars_of(raw);
    let ls = split_lines(&rv);
    let ghost all = views(ls@);
    let ghost pred = |l: Seq<char>| is_error_line(l);
    let mut errors: Vec<String> = Vec::new();
    let mut i: usize = 0;
    while i < ls.len()
        invariant
            i <= ls@.len(),
            all == views(ls@),
            pred == (|l: Seq<char>| is_error_line(l)),
            sviews(errors@) == all.take(i as int).filter(pred),
        decreases ls@.len() - i,
    {
        let ghost before = sviews(errors@);
        let is_err = error_line(&ls[i]);
        if is_err {
            let len = ls[i].len();
            errors.push(string_of_range(&ls[i], 0, len));
            assert(ls@[i as int]@.subrange(0, len as int) =~= ls@[i as int]@);
            assert(sviews(errors@) =~= before.push(ls@[i as int]@));
        }
        proof {
            reveal_with_fuel(Seq::<_>::filter, 1);
            let nxt = all.take(i + 1);
            assert(nxt.drop_last() =~= all.take(i as int));
            assert(nxt.last() == ls@[i as int]@);
            assert(pred(ls@[i as int]@) == is_err);
            assert(nxt.filter(pred) == if pred(nxt.last()) { nxt.drop_last().filter(pred).push(nxt.last()) } else { nxt.drop_last().filter(pred) });
        }
        i += 1;
    }
    assert(all.take(ls@.len() as int) =~= all);
    let tail = tail_lines(raw, 50);
    let tv = chars_of(tail.as_str());
    let context = strings_of(&split_lines(&tv));
    BuildkiteLogResult {
        step: String::from_str(step),
        error_lines: errors,
        context_lines: context,
        log_url: String::from_str(log_url),
        full_log_available: true,
    }
}

/// The text `fp context` shows for a summarised job log.
pub open spec fn spec_format_context_output(step: Seq<char>, errors: Seq<Seq<char>>, context: Seq<Seq<char>>, log_url: Seq<char>, full: bool) -> Seq<char> {
    "Step: "@ + step + "\n"@
        + (if errors.len() > 0 { "Errors:\n"@ + block(errors, "  "@) } else { seq![] })
        + "Context:\n"@ + block(context, "  "@)
        + "Log: "@ + log_url + "\n"@
        + (if full { "Full log: run again with --full-log\n"@ } else { seq![] })
}

/// Render a job-log summary: the error lines first, then the context lines,
/// then where the log lives.
pub fn format_context_output(result: BuildkiteLogResult) -> (r: String)
    ensures
        r@ == spec_format_context_output(result.step@, sviews(result.error_lines@),
            sviews(result.context_lines@), result.log_url@, result.full_log_available),
{
    let mut out = String::new();
    push_str(&mut out, "Step: ");
    push_str(&mut out, result.step.as_str());
    push_str(&mut out, "\n");
    if result.error_lines.len() > 0 {
        push_str(&mut out, "Errors:\n");
        push_block(&mut out, &result.error_lines, "  ");
    }
    push_str(&mut out, "Context:\n");
    push_block(&mut out, &result.context_lines, "  ");
    push_str(&mut out, "Log: ");
    push_str(&mut out, result.log_url.as_str());
    push_str(&mut out, "\n");
    if result.full_log_available {
        push_str(&mut out, "Full log: run again with --full-log\n");
    }
    proof {
        let e = sviews(result.error_lines@);
        assert(e.len() == result.error_lines@.len());
    }
    out
}

/// Where CI job logs are fetched from, and with which credentials.
pub struct CiLogClient {
    github_token: String,
    github_base_url: String,
}

impl CiLogClient {
    pub closed spec fn token(&self) -> Seq<char> {
        self.github_token@
    }

    pub closed spec fn base_url(&self) -> Seq<char> {
        self.github_base_url@
    }

    pub fn new(github_token: String) -> (r: Self)
        ensures
            r.token() == github_token@,
            r.base_url() == "https://api.github.com"@,
    {
        CiLogClient { github_token, github_base_url: String::from_str("https://api.github.com") }
    }

    pub fn with_base_url(github_token: String, github_base_url: String) -> (r: Self)
        ensures
            r.token() == github_token@,
            r.base_url() == github_base_url@,
    {
        CiLogClient { github_token, github_base_url }
    }

    pub fn github_token(&self) -> (r: &str)
        ensures
            r@ == self.token(),
    {
        self.github_token.as_str()
    }

    pub fn github_base_url(&self) -> (r: &str)
        ensures
            r@ == self.base_url(),
    {
        self.github_base_url.as_str()
    }

    /// What fetching the logs of `provider` takes: an answer at once, or one
    /// request whose reply the caller turns into the answer
    /// (`github_job_log_text`, `buildkite_summary_text`). Buildkite needs a token
    /// (`has_buildkite_token`).
    pub fn fetch_logs(&self, provider: &CiProvider, has_buildkite_token: bool) -> (r: LogRequest)
        ensures
            match provider@ {
                ProviderModel::GitHubActions { owner, repo, job_id } => r matches LogRequest::GithubJobLog { url }
                    && url@ == self.base_url() + "/repos/"@ + owner + "/"@ + repo + "/actions/jobs/"@ + dec(job_id) + "/logs"@,
                ProviderModel::Buildkite { org, pipeline, build_num } => if has_buildkite_token {
                    r matches LogRequest::BuildkiteBuild { url, build_url }
                        && url@ == "https://api.buildkite.com/v2/organizations/"@ + org + "/pipelines/"@ + pipeline
                            + "/builds/"@ + dec(build_num)
                        && build_url@ == buildkite_build_url(org, pipeline, build_num)
                } else {
                    r matches LogRequest::Ready(t) && t@ == "Log URL: "@ + buildkite_build_url(org, pipeline, build_num)
                        + "\nSet BUILDKITE_TOKEN to fetch logs automatically."@
                },
                ProviderModel::Unknown(u) => r matches LogRequest::Ready(t)
                    && t@ == "Log URL: "@ + u + "\n(Automatic log fetching not supported for this provider)"@,
            },
    {
        match provider {
            CiProvider::GitHubActions { owner, repo, job_id } => {
                let mut url = String::from_str(self.github_base_url.as_str());
                push_str(&mut url, "/repos/");
                push_str(&mut url, owner.as_str());
                push_str(&mut url, "/");
                push_str(&mut url, repo.as_str());
                push_str(&mut url, "/actions/jobs/");
                push_u64(&mut url, *job_id);
                push_str(&mut url, "/logs");
                LogRequest::GithubJobLog { url }
            },
            CiProvider::Buildkite { org, pipeline, build_num } => {
                let build_url = buildkite_url(org.as_str(), pipeline.as_str(), *build_num);
                if has_buildkite_token {
                    let mut url = String::from_str("https://api.buildkite.com/v2/organizations/");
                    push_str(&mut url, org.as_str());
                    push_str(&mut url, "/pipelines/");
                    push_str(&mut url, pipeline.as_str());
                    push_str(&mut url, "/builds/");
                    push_u64(&mut url, *build_num);
                    LogRequest::BuildkiteBuild { url, build_url }
                } else {
                    let mut t = String::from_str("Log URL: ");
                    push_str(&mut t, build_url.as_str());
                    push_str(&mut t, "\nSet BUILDKITE_TOKEN to fetch logs automatically.");
                    LogRequest::Ready(t)
                }
            },
            CiProvider::Unknown(u) => {
                let mut t = String::from_str("Log URL: ");
                push_str(&mut t, u.as_str());
                push_str(&mut t, "\n(Automatic log fetching not supported for this provider)");
                LogRequest::Ready(t)
            },
        }
    }

    /// What fetching the full log of `provider` takes: an answer at once, one
    /// request whose reply is the answer (GitHub Actions, untruncated), or the
    /// Buildkite build to read the failed jobs of (`raw_log_jobs`,
    /// `raw_log_section`). Buildkite needs a token (`has_buildkite_token`).
    pub fn fetch_raw_log(&self, provider: &CiProvider, has_buildkite_token: bool) -> (r: Result<LogRequest, String>)
        ensures
            match provider@ {
                ProviderModel::GitHubActions { owner, repo, job_id } => r matches Ok(LogRequest::GithubJobLog { url })
                    && url@ == self.base_url() + "/repos/"@ + owner + "/"@ + repo + "/actions/jobs/"@ + dec(job_id) + "/logs"@,
                ProviderModel::Buildkite { org, pipeline, build_num } => if has_buildkite_token {
                    r matches Ok(LogRequest::BuildkiteBuild { url, build_url })
                        && url@ == "https://api.buildkite.com/v2/organizations/"@ + org + "/pipelines/"@ + pipeline
                            + "/builds/"@ + dec(build_num)
                        && build_url@ == buildkite_build_url(org, pipeline, build_num)
                } else {
                    r matches Err(e) && e@ == "BUILDKITE_TOKEN not set"@
                },
                ProviderModel::Unknown(u) => r matches Ok(LogRequest::Ready(t))
                    && t@ == "Log URL: "@ + u + "\n(full log not available for unknown provider)"@,
            },
    {
        match provider {
            CiProvider::Buildkite { .. } => if !has_buildkite_token {
                return Err(String::from_str("BUILDKITE_TOKEN not set"));
            },
            CiProvider::Unknown(u) => {
                let mut t = String::from_str("Log URL: ");
                push_str(&mut t, u.as_str());
                push_str(&mut t, "\n(full log not available for unknown provider)");
                return Ok(LogRequest::Ready(t));
            },
            _ => {},
        }
        Ok(self.fetch_logs(provider, has_buildkite_token))
    }
}

/// What fetching a job's logs takes.
pub enum LogRequest {
    /// The answer, with no request to make.
    Ready(String),
    /// Fetch this GitHub Actions job log (following a redirect).
    GithubJobLog { url: String },
    /// Fetch this Buildkite build, whose page is `build_url`.
    BuildkiteBuild { url: String, build_url: String },
}

pub open spec fn buildkite_build_url(org: Seq<char>, pipeline: Seq<char>, build_num: nat) -> Seq<char> {
    "https://buildkite.com/"@ + org + "/"@ + pipeline + "/builds/"@ + dec(build_num)
}

fn buildkite_url(org: &str, pipeline: &str, build_num: u64) -> (r: String)
    ensures
        r@ == buildkite_build_url(org@, pipeline@, build_num as nat),
{
    let mut u = String::from_str("https://buildkite.com/");
    push_str(&mut u, org);
    push_str(&mut u, "/");
    push_str(&mut u, pipeline);
    push_str(&mut u, "/builds/");
    push_u64(&mut u, build_num);
    u
}

/// The answer for a fetched GitHub Actions job log: its last hundred lines.
pub fn github_job_log_text(text: &str) -> (r: String)
    ensures
        r@ == spec_tail_lines(text@, 100),
{
    tail_lines(text, 100)
}

/// The answer for a Buildkite build with no failed job that has a log.
pub fn buildkite_summary_text(build_num: u64, build_url: &str) -> (r: String)
    ensures
        r@ == "Build #"@ + dec(build_num as nat) + " — no failed jobs with logs found\nBuild URL: "@ + build_url@,
{
    let mut t = String::from_str("Build #");
    push_u64(&mut t, build_num);
    push_str(&mut t, " — no failed jobs with logs found\nBuild URL: ");
    push_str(&mut t, build_url);
    t
}


// ---------------------------------------------------------------------------
// The jobs of a Buildkite build

/// A job of a Buildkite build, as the build's record gives it.
pub struct BuildkiteJob {
    pub name: Option<String>,
    pub state: Option<String>,
    pub web_url: Option<String>,
    pub raw_log_url: Option<String>,
}

/// A failed job to summarise: its step, its page, and where its raw log is.
pub struct FailedJob {
    pub name: String,
    pub job_url: String,
    pub raw_log_url: Option<String>,
}

pub open spec fn is_failed(j: BuildkiteJob) -> bool {
    opt_view(j.state) == Some("failed"@)
}

pub open spec fn failed_job_view(f: FailedJob) -> (Seq<char>, Seq<char>, Option<Seq<char>>) {
    (f.name@, f.job_url@, opt_view(f.raw_log_url))
}

/// How a failed job is summarised: its name ("unknown" without one) and its page
/// (the build's page without one).
pub open spec fn failed_summary(j: BuildkiteJob, build_url: Seq<char>) -> (Seq<char>, Seq<char>, Option<Seq<char>>) {
    (
        match j.name { Some(n) => n@, None => "unknown"@ },
        match j.web_url { Some(u) => u@, None => build_url },
        opt_view(j.raw_log_url),
    )
}

fn job_failed(j: &BuildkiteJob) -> (b: bool)
    ensures
        b == is_failed(*j),
{
    match &j.state {
        Some(s) => crate::text::str_eq(s.as_str(), "failed"),
        None => false,
    }
}

/// The failed jobs of a build whose page is `build_url`, in order.
pub fn failed_jobs(jobs: &[BuildkiteJob], build_url: &str) -> (r: Vec<FailedJob>)
    ensures
        r@.map_values(|f: FailedJob| failed_job_view(f)) == jobs@.filter(|j: BuildkiteJob| is_failed(j))
            .map_values(|j: BuildkiteJob| failed_summary(j, build_url@)),
{
    let ghost pred = |j: BuildkiteJob| is_failed(j);
    let ghost f = |j: BuildkiteJob| failed_summary(j, build_url@);
    let mut out: Vec<FailedJob> = Vec::new();
    let mut i: usize = 0;
    while i < jobs.len()
        invariant
            i <= jobs@.len(),
            pred == (|j: BuildkiteJob| is_failed(j)),
            f == (|j: BuildkiteJob| failed_summary(j, build_url@)),
            out@.map_values(|x: FailedJob| failed_job_view(x)) == jobs@.take(i as int).filter(pred).map_values(f),
        decreases jobs@.len() - i,
    {
        proof { crate::keyed::lemma_filter_take(jobs@, pred, i as int); }
        let ghost before = out@.map_values(|x: FailedJob| failed_job_view(x));
        let j = &jobs[i];
        if job_failed(j) {
            let name = match &j.name {
                Some(n) => n.clone(),
                None => String::from_str("unknown"),
            };
            let job_url = match &j.web_url {
                Some(u) => u.clone(),
                None => String::from_str(build_url),
            };
            out.push(FailedJob { name, job_url, raw_log_url: crate::model::clone_opt(&j.raw_log_url) });
            assert(out@.map_values(|x: FailedJob| failed_job_view(x)) =~= before.push(f(jobs@[i as int])));
        }
        i += 1;
    }
    assert(jobs@.take(jobs@.len() as int) =~= jobs@);
    out
}

pub open spec fn has_raw_log(j: BuildkiteJob) -> bool {
    is_failed(j) && j.raw_log_url is Some
}

/// How a job's full log is headed: its name ("job" without one), and where the
/// log is.
pub open spec fn raw_log_source(j: BuildkiteJob) -> (Seq<char>, Seq<char>) {
    (match j.name { Some(n) => n@, None => "job"@ }, j.raw_log_url->0@)
}

/// The jobs whose full log is gathered: the failed ones with a raw log, in order.
pub fn raw_log_jobs(jobs: &[BuildkiteJob]) -> (r: Vec<(String, String)>)
    ensures
        r@.map_values(|p: (String, String)| (p.0@, p.1@)) == jobs@.filter(|j: BuildkiteJob| has_raw_log(j))
            .map_values(|j: BuildkiteJob| raw_log_source(j)),
{
    let ghost pred = |j: BuildkiteJob| has_raw_log(j);
    let ghost f = |j: BuildkiteJob| raw_log_source(j);
    let mut out: Vec<(String, String)> = Vec::new();
    let mut i: usize = 0;
    while i < jobs.len()
        invariant
            i <= jobs@.len(),
            pred == (|j: BuildkiteJob| has_raw_log(j)),
            f == (|j: BuildkiteJob| raw_log_source(j)),
            out@.map_values(|p: (String, String)| (p.0@, p.1@)) == jobs@.take(i as int).filter(pred).map_values(f),
        decreases jobs@.len() - i,
    {
        proof { crate::keyed::lemma_filter_take(jobs@, pred, i as int); }
        let ghost before = out@.map_values(|p: (String, String)| (p.0@, p.1@));
        let j = &jobs[i];
        if job_failed(j) {
            if let Some(u) = &j.raw_log_url {
                let name = match &j.name {
                    Some(n) => n.clone(),
                    None => String::from_str("job"),
                };
                out.push((name, u.clone()));
                assert(out@.map_values(|p: (String, String)| (p.0@, p.1@)) =~= before.push(f(jobs@[i as int])));
            }
        }
        i += 1;
    }
    assert(jobs@.take(jobs@.len() as int) =~= jobs@);
    out
}

/// The part of a full log that one job's log makes.
pub fn raw_log_section(name: &str, text: &str) -> (r: String)
    ensures
        r@ == "=== "@ + name@ + " ===\n"@ + text@ + "\n"@,
{
    let mut r = String::from_str("=== ");
    push_str(&mut r, name);
    push_str(&mut r, " ===\n");
    push_str(&mut r, text);
    push_str(&mut r, "\n");
    r
}

} // verus!
