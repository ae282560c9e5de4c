use fp::ci::{parse_ci_provider, extract_buildkite_log, format_context_output, BuildkiteLogResult, CiProvider,
    CiLogClient, LogRequest, github_job_log_text, buildkite_summary_text, tail_lines, BuildkiteJob, failed_jobs,
    raw_log_jobs, raw_log_section};

#[test]
fn parse_github_actions_url() {
    let url = "https://github.com/owner/repo/actions/runs/123456/jobs/789012";
    let provider = parse_ci_provider(url);
    assert_eq!(provider, CiProvider::GitHubActions { owner: "owner".into(), repo: "repo".into(), job_id: 789012 });
}

#[test]
fn parse_buildkite_url() {
    let url = "https://buildkite.com/myorg/my-pipeline/builds/42";
    let provider = parse_ci_provider(url);
    assert_eq!(provider, CiProvider::Buildkite { org: "myorg".into(), pipeline: "my-pipeline".into(), build_num: 42 });
}

#[test]
fn parse_buildkite_url_with_fragment() {
    let url = "https://buildkite.com/myorg/my-pipeline/builds/42#step-test";
    let provider = parse_ci_provider(url);
    assert_eq!(provider, CiProvider::Buildkite { org: "myorg".into(), pipeline: "my-pipeline".into(), build_num: 42 });
}

#[test]
fn parse_unknown_url() {
    let url = "https://circleci.com/gh/owner/repo/123";
    let provider = parse_ci_provider(url);
    assert_eq!(provider, CiProvider::Unknown(url.into()));
}

#[test]
fn parse_github_url_with_bad_job_id_is_unknown() {
    let url = "https://github.com/owner/repo/actions/runs/1/jobs/x9";
    assert_eq!(parse_ci_provider(url), CiProvider::Unknown(url.into()));
}

#[test]
fn extract_buildkite_log_returns_structured_result() {
    let raw_log = "Starting step rspec\nline1\nline2\nError: test failed\nline4\npanic: something bad";
    let result = extract_buildkite_log(raw_log, "rspec", "https://buildkite.com/org/pipe/builds/1");
    assert_eq!(result.step, "rspec");
    assert!(result.error_lines.iter().any(|l| l.contains("Error: test failed")),
        "error_lines should contain Error: line, got: {:?}", result.error_lines);
    assert!(result.error_lines.iter().any(|l| l.contains("panic:")),
        "error_lines should contain panic: line, got: {:?}", result.error_lines);
    assert_eq!(result.log_url, "https://buildkite.com/org/pipe/builds/1");
}

#[test]
fn extract_buildkite_log_log_url_always_present() {
    let result = extract_buildkite_log("all good\nno errors here", "build", "https://buildkite.com/x/y/builds/5");
    assert_eq!(result.log_url, "https://buildkite.com/x/y/builds/5");
    assert!(result.error_lines.is_empty());
}

#[test]
fn extract_buildkite_log_recognizes_eslint_errors() {
    let raw_log = "Starting lint step\nsrc/index.js:10:5  error  'foo' is not defined  no-undef\nsrc/utils.ts:42:1  error  Missing semicolon  semi\nError: lint failed\nDone.";
    let result = extract_buildkite_log(raw_log, "lint", "https://buildkite.com/x/y/builds/7");
    assert!(result.error_lines.iter().any(|l| l.contains("src/index.js")),
        "error_lines should contain ESLint line for src/index.js, got: {:?}", result.error_lines);
    assert!(result.error_lines.iter().any(|l| l.contains("src/utils.ts")),
        "error_lines should contain ESLint line for src/utils.ts, got: {:?}", result.error_lines);
    assert!(result.error_lines.iter().any(|l| l.contains("Error: lint failed")),
        "error_lines should still contain existing Error: pattern, got: {:?}", result.error_lines);
}

#[test]
fn extract_buildkite_log_excludes_non_error_lines() {
    let raw_log = "Starting step\nsrc/index.js:10:5  warning  foo  some-rule\nnormal output\nDone.";
    let result = extract_buildkite_log(raw_log, "lint", "https://buildkite.com/x");
    assert!(result.error_lines.is_empty(),
        "warning-only ESLint lines and normal lines should not appear in error_lines, got: {:?}", result.error_lines);
}

#[test]
fn extract_buildkite_log_context_is_last_fifty_lines() {
    let raw: Vec<String> = (1..=60).map(|i| format!("line {}", i)).collect();
    let result = extract_buildkite_log(&raw.join("\n"), "s", "u");
    assert_eq!(result.context_lines.len(), 50);
    assert_eq!(result.context_lines[0], "line 11");
    assert_eq!(result.context_lines[49], "line 60");
}

#[test]
fn format_context_output_includes_full_log_hint_when_available() {
    let result = BuildkiteLogResult {
        step: "test".into(), error_lines: vec![], context_lines: vec!["line".into()],
        log_url: "https://buildkite.com/x".into(), full_log_available: true,
    };
    let out = format_context_output(result);
    assert!(out.contains("--full-log"), "output should hint --full-log when full_log_available=true, got: {}", out);
}

#[test]
fn format_context_output_shows_error_lines_before_context() {
    let result = BuildkiteLogResult {
        step: "rspec".into(),
        error_lines: vec!["Error: test failed".into()],
        context_lines: vec!["context line 1".into(), "context line 2".into()],
        log_url: "https://buildkite.com/x/y/1".into(),
        full_log_available: true,
    };
    let out = format_context_output(result);
    let err_pos = out.find("Error: test failed").expect("error line must appear in output");
    let ctx_pos = out.find("context line 1").expect("context line must appear in output");
    assert!(err_pos < ctx_pos, "error_lines must appear before context_lines, positions: err={} ctx={}", err_pos, ctx_pos);
}

#[test]
fn format_context_output_includes_log_url() {
    let result = BuildkiteLogResult {
        step: "build".into(),
        error_lines: vec![],
        context_lines: vec!["some output".into()],
        log_url: "https://buildkite.com/org/pipe/builds/42".into(),
        full_log_available: true,
    };
    let out = format_context_output(result);
    assert!(out.contains("https://buildkite.com/org/pipe/builds/42"), "output must contain log_url, got: {}", out);
}

#[test]
fn format_context_output_empty_error_lines_omits_errors_section() {
    let result = BuildkiteLogResult {
        step: "build".into(),
        error_lines: vec![],
        context_lines: vec!["clean output".into()],
        log_url: "https://buildkite.com/x".into(),
        full_log_available: true,
    };
    let out = format_context_output(result);
    assert!(!out.contains("Errors:"), "empty error_lines should omit Errors: section, got: {}", out);
    assert!(out.contains("clean output"), "context lines must still appear, got: {}", out);
}

#[test]
fn tail_lines_keeps_last_lines() {
    assert_eq!(tail_lines("a\nb\nc\nd", 2), "c\nd");
    assert_eq!(tail_lines("a\nb", 5), "a\nb");
}

#[test]
fn fetch_logs_plans_github_request() {
    let client = CiLogClient::with_base_url("tok".into(), "http://127.0.0.1:9".into());
    let provider = CiProvider::GitHubActions { owner: "o".into(), repo: "r".into(), job_id: 789 };
    match client.fetch_logs(&provider, false) {
        LogRequest::GithubJobLog { url } => assert_eq!(url, "http://127.0.0.1:9/repos/o/r/actions/jobs/789/logs"),
        _ => panic!("expected a GitHub log request"),
    }
}

#[test]
fn fetch_logs_unknown_provider_returns_url() {
    let client = CiLogClient::new("tok".into());
    let provider = CiProvider::Unknown("https://example.com/build/123".into());
    match client.fetch_logs(&provider, true) {
        LogRequest::Ready(t) => assert_eq!(t, "Log URL: https://example.com/build/123\n(Automatic log fetching not supported for this provider)"),
        _ => panic!("expected an answer"),
    }
}

#[test]
fn fetch_logs_buildkite_without_token_explains() {
    let client = CiLogClient::new("tok".into());
    let provider = CiProvider::Buildkite { org: "o".into(), pipeline: "p".into(), build_num: 4 };
    match client.fetch_logs(&provider, false) {
        LogRequest::Ready(t) => assert_eq!(t, "Log URL: https://buildkite.com/o/p/builds/4\nSet BUILDKITE_TOKEN to fetch logs automatically."),
        _ => panic!("expected an answer"),
    }
    match client.fetch_logs(&provider, true) {
        LogRequest::BuildkiteBuild { url, build_url } => {
            assert_eq!(url, "https://api.buildkite.com/v2/organizations/o/pipelines/p/builds/4");
            assert_eq!(build_url, "https://buildkite.com/o/p/builds/4");
        }
        _ => panic!("expected a Buildkite request"),
    }
}

#[test]
fn log_answers_exact() {
    let text: Vec<String> = (1..=120).map(|i| i.to_string()).collect();
    let out = github_job_log_text(&text.join("\n"));
    assert!(out.starts_with("21\n") && out.ends_with("\n120"));
    assert_eq!(buildkite_summary_text(3, "https://b/3"), "Build #3 — no failed jobs with logs found\nBuild URL: https://b/3");
}

fn job(name: Option<&str>, state: &str, web_url: Option<&str>, raw: Option<&str>) -> BuildkiteJob {
    BuildkiteJob {
        name: name.map(String::from),
        state: Some(state.to_string()),
        web_url: web_url.map(String::from),
        raw_log_url: raw.map(String::from),
    }
}

#[test]
fn failed_jobs_are_summarised_with_defaults() {
    let jobs = vec![
        job(Some("lint"), "passed", None, Some("https://bk/1.log")),
        job(Some("test"), "failed", Some("https://bk/job/2"), Some("https://bk/2.log")),
        job(None, "failed", None, None),
    ];
    let failed = failed_jobs(&jobs, "https://buildkite.com/o/p/builds/9");
    assert_eq!(failed.len(), 2);
    assert_eq!((failed[0].name.as_str(), failed[0].job_url.as_str(), failed[0].raw_log_url.as_deref()),
        ("test", "https://bk/job/2", Some("https://bk/2.log")));
    assert_eq!((failed[1].name.as_str(), failed[1].job_url.as_str(), failed[1].raw_log_url.as_deref()),
        ("unknown", "https://buildkite.com/o/p/builds/9", None));
    let raw = raw_log_jobs(&jobs);
    assert_eq!(raw, vec![("test".to_string(), "https://bk/2.log".to_string())]);
    let unnamed = raw_log_jobs(&[job(None, "failed", None, Some("https://bk/3.log"))]);
    assert_eq!(unnamed, vec![("job".to_string(), "https://bk/3.log".to_string())]);
    assert_eq!(raw_log_section("test", "boom"), "=== test ===\nboom\n");
}

#[test]
fn full_log_requests() {
    let client = CiLogClient::with_base_url("tok".into(), "http://gh".into());
    match client.fetch_raw_log(&parse_ci_provider("https://github.com/o/r/actions/runs/1/jobs/2"), false) {
        Ok(LogRequest::GithubJobLog { url }) => assert_eq!(url, "http://gh/repos/o/r/actions/jobs/2/logs"),
        _ => panic!("expected a job log request"),
    }
    assert_eq!(client.fetch_raw_log(&parse_ci_provider("https://buildkite.com/o/p/builds/3"), false).err().unwrap(),
        "BUILDKITE_TOKEN not set");
    match client.fetch_raw_log(&parse_ci_provider("https://example.com/x"), false) {
        Ok(LogRequest::Ready(t)) => assert_eq!(t, "Log URL: https://example.com/x\n(full log not available for unknown provider)"),
        _ => panic!("expected a ready answer"),
    }
}

#[test]
fn unknown_provider_returns_url() {
    let client = CiLogClient::with_base_url("token".into(), "http://unused".into());
    let url = "https://example.com/build/123";
    let result = client.fetch_raw_log(&CiProvider::Unknown(url.into()), false).unwrap();
    match result {
        LogRequest::Ready(text) => assert!(text.contains(url)),
        _ => panic!("expected a ready answer for an unknown provider"),
    }
}

#[test]
fn context_lines_keep_carriage_returns_only_when_they_end_the_log() {
    let r = extract_buildkite_log("a\r\nb\nc", "s", "u");
    assert_eq!(r.context_lines, vec!["a".to_string(), "b".to_string(), "c".to_string()]);
}
