# fp

`fp` keeps a stack of GitHub pull requests moving: it reads their checks,
reviews and threads, tells what stands between each of them and its merge, and
runs the local services of groups of pull requests ("feature envelopes").

The library in `src/` holds the logic, each function with a contract that Verus
proves. It decides and computes; it never reads a file, runs a command or talks
to GitHub. The program in `app/` does that work and hands the library what it
read.

## Layout

- `src/text.rs`, `src/keyed.rs`: text primitives with a model over `Seq<char>`,
  and sorted sequences used as maps.
- `src/model.rs`, `src/tasks.rs`, `src/pr_state.rs`, `src/github.rs`: pull
  requests as GitHub describes them, and the state `fp` makes of them (checks,
  approval, threads), remotes, tokens, image upload details, resolved threads.
- `src/json.rs`: JSON values and the paths read through them.
- `src/tracking.rs`: the tracked pull requests and what is remembered of them.
- `src/overview.rs`: what `ls`, `status`, `status --all`, `watch`, `switch` and
  the merged-PR part of `rebase-stack` decide.
- `src/ci.rs`: CI job URLs and log summaries.
- `src/display.rs`: the text `fp` prints.
- `src/app_config.rs`, `src/process.rs`, `src/feature.rs`, `src/services.rs`:
  app configurations, the local process state, feature envelopes, and the work
  of starting, stopping and rebuilding their services.
- `src/commands.rs`: what each command decides and answers.
- `src/worktree.rs`, `src/date.rs`, `src/credentials.rs`, `src/chrome.rs`:
  worktrees and locks, commit dates, credentials, and the browser session
  cookie.
- `app/`: the command line, the HTTP requests, persistence and processes.
- `tests/`: tests of the library.
