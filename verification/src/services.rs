//! Starting, stopping and rebuilding the services of a feature envelope.
//!
//! The commands themselves are run by the caller; what is decided here is
//! which commands run, in which order, under which instance name, what the
//! process state records of them, and what is reported.
use vstd::prelude::*;
use crate::app_config::{AppConfig, AppConfigStore};
use crate::feature::first_config;
use crate::process::{
    ProcessState, ProcessRecord, DepRecord, in_envelope, record_in, with_process, distinct_prs,
    dep_cfg, dep_keys_of, dep_slots,
};
use crate::keyed::lemma_filter_take;
use crate::text::{push_str, push_u64, dec, copy_str, push_replaced, replace_all, sviews, lowercase, to_lowercase};

verus! {

// ---------------------------------------------------------------------------
// Instance names

/// An instance name from its lower-cased form: each `/` becomes `-`.
pub fn instance_from_lowered(lowered: &str) -> (r: String)
    ensures
        r@ == replace_all(lowered@, "/"@, "-"@),
{
    let mut out = String::new();
    proof { reveal_strlit("/"); }
    push_replaced(&mut out, lowered, "/", "-");
    out
}

/// The instance name of the shared dependency `cfg` of envelope `name`.
pub open spec fn dep_instance_of(name: Seq<char>, cfg: Seq<char>) -> Seq<char> {
    replace_all(lowercase("fp-dep-"@ + name + "-"@ + cfg), "/"@, "-"@)
}

pub fn dep_instance(name: &str, cfg: &str) -> (r: String)
    ensures
        r@ == dep_instance_of(name@, cfg@),
{
    let mut raw = String::from_str("fp-dep-");
    push_str(&mut raw, name);
    push_str(&mut raw, "-");
    push_str(&mut raw, cfg);
    let lowered = to_lowercase(raw.as_str());
    instance_from_lowered(lowered.as_str())
}

/// The instance name of the services of pull request `pr`.
pub open spec fn member_instance_of(pr: u64) -> Seq<char> {
    "fp---"@ + dec(pr as nat)
}

pub fn member_instance(pr: u64) -> (r: String)
    ensures
        r@ == member_instance_of(pr),
{
    let mut out = String::from_str("fp---");
    push_u64(&mut out, pr);
    out
}

// ---------------------------------------------------------------------------
// Stopping an envelope

/// A teardown command to run: for a member, in the worktree of its branch; for
/// a shared instance, in the worktree it was started in.
pub enum Teardown {
    Member { pr: u64, instance: String, expected_branch: String, command: String },
    Dep { instance: String, worktree: String, command: String },
}

pub enum TeardownView {
    Member { pr: u64, instance: Seq<char>, expected_branch: Seq<char>, command: Seq<char> },
    Dep { instance: Seq<char>, worktree: Seq<char>, command: Seq<char> },
}

pub open spec fn teardown_view(t: Teardown) -> TeardownView {
    match t {
        Teardown::Member { pr, instance, expected_branch, command } =>
            TeardownView::Member { pr, instance: instance@, expected_branch: expected_branch@, command: command@ },
        Teardown::Dep { instance, worktree, command } =>
            TeardownView::Dep { instance: instance@, worktree: worktree@, command: command@ },
    }
}

pub open spec fn teardown_views(ts: Seq<Teardown>) -> Seq<TeardownView> {
    ts.map_values(|t: Teardown| teardown_view(t))
}

/// Whether member `r` has an app configuration that `store` defines.
pub open spec fn has_config(store: AppConfigStore, r: ProcessRecord) -> bool {
    first_config(store, r) is Some
}

pub open spec fn skipped_message(pr: u64) -> Seq<char> {
    "PR #"@ + dec(pr as nat) + ": no app config assigned — skipped"@
}

/// What stopping member `r` reports.
pub open spec fn member_down_message(store: AppConfigStore, r: ProcessRecord) -> Seq<char> {
    match first_config(store, r) {
        Some(c) => "PR #"@ + dec(r.pr as nat) + ": stopped ("@ + c.name@ + ")"@,
        None => skipped_message(r.pr),
    }
}

pub open spec fn member_teardown(store: AppConfigStore, r: ProcessRecord) -> TeardownView {
    TeardownView::Member {
        pr: r.pr,
        instance: member_instance_of(r.pr),
        expected_branch: r.expected_branch@,
        command: first_config(store, r)->0.teardown@,
    }
}

/// Whether the shared instance `k` can be stopped: `store` defines its
/// configuration.
pub open spec fn dep_known(store: AppConfigStore, k: Seq<char>) -> bool {
    store.config(dep_cfg(k)) is Some
}

pub open spec fn dep_teardown(state: ProcessState, store: AppConfigStore, name: Seq<char>, k: Seq<char>) -> TeardownView {
    TeardownView::Dep {
        instance: dep_instance_of(name, dep_cfg(k)),
        worktree: state.dep_record(k)->0.worktree@,
        command: store.config(dep_cfg(k))->0.teardown@,
    }
}

/// The messages of stopping envelope `name` in `state`: one per member, in
/// record order, then one per shared instance that can be stopped.
pub open spec fn down_messages(state: ProcessState, store: AppConfigStore, name: Seq<char>) -> Seq<Seq<char>> {
    state.records_view().filter(|r: ProcessRecord| in_envelope(r, name))
        .map_values(|r: ProcessRecord| member_down_message(store, r))
    + dep_keys_of(state.dep_entries(), name).filter(|k: Seq<char>| dep_known(store, k))
        .map_values(|k: Seq<char>| "dep "@ + dep_cfg(k) + " (main): stopped"@)
}

/// The teardown commands of stopping envelope `name` in `state`.
pub open spec fn down_teardowns(state: ProcessState, store: AppConfigStore, name: Seq<char>) -> Seq<TeardownView> {
    state.records_view().filter(|r: ProcessRecord| in_envelope(r, name) && has_config(store, r))
        .map_values(|r: ProcessRecord| member_teardown(store, r))
    + dep_keys_of(state.dep_entries(), name).filter(|k: Seq<char>| dep_known(store, k))
        .map_values(|k: Seq<char>| dep_teardown(state, store, name, k))
}

fn first_config_of(config: &AppConfigStore, r: &ProcessRecord) -> (c: Option<AppConfig>)
    ensures
        c == first_config(*config, *r),
{
    if r.app_config_names.len() > 0 {
        config.load_app_config(r.app_config_names[0].as_str())
    } else {
        None
    }
}

fn stopped_message(pr: u64, config_name: &str) -> (m: String)
    ensures
        m@ == "PR #"@ + dec(pr as nat) + ": stopped ("@ + config_name@ + ")"@,
{
    let mut m = String::from_str("PR #");
    push_u64(&mut m, pr);
    push_str(&mut m, ": stopped (");
    push_str(&mut m, config_name);
    push_str(&mut m, ")");
    m
}

pub fn skipped(pr: u64) -> (m: String)
    ensures
        m@ == skipped_message(pr),
{
    let mut m = String::from_str("PR #");
    push_u64(&mut m, pr);
    push_str(&mut m, ": no app config assigned — skipped");
    m
}

/// Stop envelope `name`: its members with an app configuration no longer run a
/// process, and its shared instances are forgotten. Answers the messages to
/// report and the teardown commands to run, in order.
pub fn feature_down(state: &mut ProcessState, config: &AppConfigStore, name: &str) -> (r: (Vec<String>, Vec<Teardown>))
    ensures
        r.0@.map_values(|m: String| m@) == down_messages(*old(state), *config, name@),
        teardown_views(r.1@) == down_teardowns(*old(state), *config, name@),
        final(state).records_view().len() == old(state).records_view().len(),
        forall|i: int| 0 <= i < old(state).records_view().len() ==> (#[trigger] final(state).records_view()[i])
            == if in_envelope(old(state).records_view()[i], name@) && has_config(*config, old(state).records_view()[i]) {
                with_process(old(state).records_view()[i], None, None)
            } else {
                old(state).records_view()[i]
            },
        forall|i: int| 0 <= i < old(state).records_view().len() && in_envelope(old(state).records_view()[i], name@)
            && has_config(*config, old(state).records_view()[i]) ==> (#[trigger] final(state).records_view()[i]).pid is None,
        forall|k: Seq<char>| final(state).dep_record(k) == if dep_keys_of(old(state).dep_entries(), name@).contains(k) {
            None
        } else {
            old(state).dep_record(k)
        },
        forall|n: Seq<char>| final(state).has_envelope(n) == old(state).has_envelope(n),
        forall|k: Seq<char>| final(state).deps_of(k) == old(state).deps_of(k),
        forall|k: Seq<char>| final(state).test_config(k) == old(state).test_config(k),
{
    let ghost s0 = *state;
    let ghost rs0 = state.records_view();
    let ghost in_env = |r: ProcessRecord| in_envelope(r, name@);
    let ghost stoppable = |r: ProcessRecord| in_envelope(r, name@) && has_config(*config, r);
    let ghost msg_of = |r: ProcessRecord| member_down_message(*config, r);
    let ghost td_of = |r: ProcessRecord| member_teardown(*config, r);
    let mut msgs: Vec<String> = Vec::new();
    let mut tds: Vec<Teardown> = Vec::new();
    let n = state.records().len();
    let mut i: usize = 0;
    while i < n
        invariant
            i <= n == rs0.len(),
            state.records_view().len() == n,
            distinct_prs(rs0),
            forall|j: int| 0 <= j < i ==> (#[trigger] state.records_view()[j]) == if stoppable(rs0[j]) {
                with_process(rs0[j], None, None)
            } else {
                rs0[j]
            },
            forall|j: int| i <= j < n ==> (#[trigger] state.records_view()[j]) == rs0[j],
            msgs@.map_values(|m: String| m@) == rs0.take(i as int).filter(in_env).map_values(msg_of),
            teardown_views(tds@) == rs0.take(i as int).filter(stoppable).map_values(td_of),
            in_env == (|r: ProcessRecord| in_envelope(r, name@)),
            stoppable == (|r: ProcessRecord| in_envelope(r, name@) && has_config(*config, r)),
            msg_of == (|r: ProcessRecord| member_down_message(*config, r)),
            td_of == (|r: ProcessRecord| member_teardown(*config, r)),
            state.dep_entries() == s0.dep_entries(),
            forall|k: Seq<char>| state.dep_record(k) == s0.dep_record(k),
            forall|x: Seq<char>| state.has_envelope(x) == s0.has_envelope(x),
            forall|k: Seq<char>| state.deps_of(k) == s0.deps_of(k),
            forall|k: Seq<char>| state.test_config(k) == s0.test_config(k),
        decreases n - i,
    {
        proof {
            lemma_filter_take(rs0, in_env, i as int);
            lemma_filter_take(rs0, stoppable, i as int);
        }
        let ghost m0 = msgs@.map_values(|m: String| m@);
        let ghost t0 = teardown_views(tds@);
        let (member, pr, cfg, branch) = {
            let rs = state.records();
            let r = &rs[i];
            assert(*r == rs0[i as int]);
            (record_in(r, name), r.pr, first_config_of(config, r), copy_str(r.expected_branch.as_str()))
        };
        if member {
            match cfg {
                Some(c) => {
                    msgs.push(stopped_message(pr, c.name.as_str()));
                    tds.push(Teardown::Member {
                        pr,
                        instance: member_instance(pr),
                        expected_branch: branch,
                        command: copy_str(c.teardown.as_str()),
                    });
                    let ghost before = state.records_view();
                    state.mark_stopped(pr);
                    proof {
                        assert forall|j: int| 0 <= j < n && j != i implies before[j].pr != pr by {
                            if j < i {
                                assert(rs0[j].pr != rs0[i as int].pr);
                            } else {
                                assert(rs0[i as int].pr != rs0[j].pr);
                            }
                        }
                    }
                    assert(msgs@.map_values(|m: String| m@) =~= m0.push(msg_of(rs0[i as int])));
                    assert(teardown_views(tds@) =~= t0.push(td_of(rs0[i as int])));
                },
                None => {
                    msgs.push(skipped(pr));
                    assert(msgs@.map_values(|m: String| m@) =~= m0.push(msg_of(rs0[i as int])));
                },
            }
        }
        i += 1;
    }
    assert(rs0.take(n as int) =~= rs0);
    let ghost mid_msgs = msgs@.map_values(|m: String| m@);
    let ghost mid_tds = teardown_views(tds@);
    let ghost rs1 = state.records_view();
    let slots = dep_slots(state, name);
    let ghost ks = dep_keys_of(s0.dep_entries(), name@);
    let ghost known = |k: Seq<char>| dep_known(*config, k);
    let ghost dmsg = |k: Seq<char>| "dep "@ + dep_cfg(k) + " (main): stopped"@;
    let ghost dtd = |k: Seq<char>| dep_teardown(s0, *config, name@, k);
    let mut j: usize = 0;
    while j < slots.len()
        invariant
            j <= slots@.len(),
            slots@.map_values(|e: (String, String, String)| e.0@) == ks,
            forall|q: int| 0 <= q < slots@.len() ==> ((#[trigger] slots@[q]).1@ == dep_cfg(slots@[q].0@)
                && (s0.dep_record(slots@[q].0@) matches Some(d) && d.worktree@ == slots@[q].2@)),
            known == (|k: Seq<char>| dep_known(*config, k)),
            dmsg == (|k: Seq<char>| "dep "@ + dep_cfg(k) + " (main): stopped"@),
            dtd == (|k: Seq<char>| dep_teardown(s0, *config, name@, k)),
            msgs@.map_values(|m: String| m@) == mid_msgs + ks.take(j as int).filter(known).map_values(dmsg),
            teardown_views(tds@) == mid_tds + ks.take(j as int).filter(known).map_values(dtd),
            state.records_view() == rs1,
            forall|k: Seq<char>| state.dep_record(k) == if ks.take(j as int).contains(k) { None } else { s0.dep_record(k) },
            forall|x: Seq<char>| state.has_envelope(x) == s0.has_envelope(x),
            forall|k: Seq<char>| state.deps_of(k) == s0.deps_of(k),
            forall|k: Seq<char>| state.test_config(k) == s0.test_config(k),
        decreases slots@.len() - j,
    {
        proof { lemma_filter_take(ks, known, j as int); }
        let ghost m0 = msgs@.map_values(|m: String| m@);
        let ghost t0 = teardown_views(tds@);
        let ghost k = slots@[j as int].0@;
        assert(ks[j as int] == k);
        let key = &slots[j].0;
        let cfg_name = &slots[j].1;
        match config.load_app_config(cfg_name.as_str()) {
            Some(c) => {
                let mut m = String::from_str("dep ");
                push_str(&mut m, cfg_name.as_str());
                push_str(&mut m, " (main): stopped");
                msgs.push(m);
                tds.push(Teardown::Dep {
                    instance: dep_instance(name, cfg_name.as_str()),
                    worktree: copy_str(slots[j].2.as_str()),
                    command: copy_str(c.teardown.as_str()),
                });
                assert(msgs@.map_values(|m: String| m@) =~= m0.push(dmsg(k)));
                assert(teardown_views(tds@) =~= t0.push(dtd(k)));
            },
            None => {},
        }
        state.remove_dep_record(key.as_str());
        proof {
            let t1 = ks.take(j + 1);
            let t0 = ks.take(j as int);
            assert forall|x: Seq<char>| t1.contains(x) <==> (t0.contains(x) || x == k) by {
                if t1.contains(x) {
                    let q = choose|q: int| 0 <= q < t1.len() && t1[q] == x;
                    if q < j {
                        assert(t0[q] == x);
                    }
                }
                if t0.contains(x) {
                    let q = choose|q: int| 0 <= q < t0.len() && t0[q] == x;
                    assert(t1[q] == x);
                }
                if x == k {
                    assert(t1[j as int] == x);
                }
            }
        }
        j += 1;
    }
    assert(ks.take(slots@.len() as int) =~= ks);
    (msgs, tds)
}


// ---------------------------------------------------------------------------
// Starting an envelope

/// A piece of the work of starting an envelope.
pub enum UpStep {
    /// Nothing to start; the message says why.
    Note { message: String },
    /// Start `config` for member `pr`, whose recorded process is `pid`, in the
    /// worktree of `expected_branch`.
    Member { pr: u64, pid: Option<u32>, expected_branch: String, config: AppConfig },
    /// Start the shared instance `instance` of configuration `cfg_name`, kept
    /// under `key`, in the main worktree.
    Dep { key: String, cfg_name: String, instance: String, config: AppConfig },
}

pub enum UpStepView {
    Note { message: Seq<char> },
    Member { pr: u64, pid: Option<u32>, expected_branch: Seq<char>, config: AppConfig },
    Dep { key: Seq<char>, cfg_name: Seq<char>, instance: Seq<char>, config: AppConfig },
}

pub open spec fn up_step_view(s: UpStep) -> UpStepView {
    match s {
        UpStep::Note { message } => UpStepView::Note { message: message@ },
        UpStep::Member { pr, pid, expected_branch, config } =>
            UpStepView::Member { pr, pid, expected_branch: expected_branch@, config },
        UpStep::Dep { key, cfg_name, instance, config } =>
            UpStepView::Dep { key: key@, cfg_name: cfg_name@, instance: instance@, config },
    }
}

pub open spec fn up_step_views(ss: Seq<UpStep>) -> Seq<UpStepView> {
    ss.map_values(|s: UpStep| up_step_view(s))
}

pub open spec fn config_missing_message(pr: u64, n: Seq<char>) -> Seq<char> {
    "PR #"@ + dec(pr as nat) + ": app config '"@ + n + "' not found — skipped"@
}

pub open spec fn member_up_step(store: AppConfigStore, r: ProcessRecord, n: Seq<char>) -> UpStepView {
    match store.config(n) {
        Some(c) => UpStepView::Member { pr: r.pr, pid: r.pid, expected_branch: r.expected_branch@, config: c },
        None => UpStepView::Note { message: config_missing_message(r.pr, n) },
    }
}

/// Starting member `r`: each of its app configurations in turn.
pub open spec fn member_up_steps(store: AppConfigStore, r: ProcessRecord) -> Seq<UpStepView> {
    if r.app_config_names@.len() == 0 {
        seq![UpStepView::Note { message: skipped_message(r.pr) }]
    } else {
        sviews(r.app_config_names@).map_values(|n: Seq<char>| member_up_step(store, r, n))
    }
}

pub open spec fn members_up_steps(store: AppConfigStore, ms: Seq<ProcessRecord>) -> Seq<UpStepView>
    decreases ms.len(),
{
    if ms.len() == 0 {
        seq![]
    } else {
        members_up_steps(store, ms.drop_last()) + member_up_steps(store, ms.last())
    }
}

/// Whether some member of envelope `name` names the app configuration `n`.
pub open spec fn configured(rs: Seq<ProcessRecord>, name: Seq<char>, n: Seq<char>) -> bool {
    exists|i: int| 0 <= i < rs.len() && in_envelope(#[trigger] rs[i], name) && sviews(rs[i].app_config_names@).contains(n)
}

pub open spec fn dep_key(name: Seq<char>, d: Seq<char>) -> Seq<char> {
    name + ":"@ + d
}

pub open spec fn dep_up_step(store: AppConfigStore, name: Seq<char>, d: Seq<char>) -> UpStepView {
    match store.config(d) {
        Some(c) => UpStepView::Dep { key: dep_key(name, d), cfg_name: d, instance: dep_instance_of(name, d), config: c },
        None => UpStepView::Note { message: "dep "@ + d + ": app config not found — skipped"@ },
    }
}

pub open spec fn deps_or_none(state: ProcessState, name: Seq<char>) -> Seq<Seq<char>> {
    match state.deps_of(name) {
        Some(d) => d,
        None => seq![],
    }
}

/// The work of starting envelope `name`: its members, in record order, then the
/// shared dependencies that no member provides.
pub open spec fn up_steps(state: ProcessState, store: AppConfigStore, name: Seq<char>) -> Seq<UpStepView> {
    members_up_steps(store, state.records_view().filter(|r: ProcessRecord| in_envelope(r, name)))
        + deps_or_none(state, name).filter(|d: Seq<char>| !configured(state.records_view(), name, d))
            .map_values(|d: Seq<char>| dep_up_step(store, name, d))
}

fn config_missing(pr: u64, n: &str) -> (m: String)
    ensures
        m@ == config_missing_message(pr, n@),
{
    let mut m = String::from_str("PR #");
    push_u64(&mut m, pr);
    push_str(&mut m, ": app config '");
    push_str(&mut m, n);
    push_str(&mut m, "' not found — skipped");
    m
}

fn member_steps(config: &AppConfigStore, r: &ProcessRecord, out: &mut Vec<UpStep>)
    ensures
        up_step_views(final(out)@) == up_step_views(old(out)@) + member_up_steps(*config, *r),
{
    let ghost o0 = up_step_views(out@);
    if r.app_config_names.len() == 0 {
        out.push(UpStep::Note { message: skipped(r.pr) });
        assert(up_step_views(out@) =~= o0 + member_up_steps(*config, *r));
        return;
    }
    let names = &r.app_config_names;
    let ghost f = |n: Seq<char>| member_up_step(*config, *r, n);
    let mut k: usize = 0;
    while k < names.len()
        invariant
            k <= names@.len(),
            *names == r.app_config_names,
            f == (|n: Seq<char>| member_up_step(*config, *r, n)),
            up_step_views(out@) == o0 + sviews(names@).take(k as int).map_values(f),
        decreases names@.len() - k,
    {
        let ghost before = up_step_views(out@);
        let step = match config.load_app_config(names[k].as_str()) {
            Some(c) => UpStep::Member {
                pr: r.pr,
                pid: r.pid,
                expected_branch: copy_str(r.expected_branch.as_str()),
                config: c,
            },
            None => UpStep::Note { message: config_missing(r.pr, names[k].as_str()) },
        };
        out.push(step);
        assert(sviews(names@).take(k + 1) =~= sviews(names@).take(k as int).push(names@[k as int]@));
        assert(up_step_views(out@) =~= before.push(f(names@[k as int]@)));
        assert(up_step_views(out@) =~= o0 + sviews(names@).take(k + 1).map_values(f));
        k += 1;
    }
    assert(sviews(names@).take(names@.len() as int) =~= sviews(names@));
}

fn configured_in(rs: &Vec<ProcessRecord>, name: &str, n: &str) -> (b: bool)
    ensures
        b == configured(rs@, name@, n@),
{
    let mut i: usize = 0;
    while i < rs.len()
        invariant
            i <= rs@.len(),
            forall|j: int| 0 <= j < i ==> !(in_envelope(#[trigger] rs@[j], name@) && sviews(rs@[j].app_config_names@).contains(n@)),
        decreases rs@.len() - i,
    {
        if record_in(&rs[i], name) && crate::feature::has_string(&rs[i].app_config_names, n) {
            return true;
        }
        i += 1;
    }
    false
}

fn dep_key_text(name: &str, d: &str) -> (k: String)
    ensures
        k@ == dep_key(name@, d@),
{
    let mut k = copy_str(name);
    push_str(&mut k, ":");
    push_str(&mut k, d);
    k
}

/// The work of starting envelope `name`, in order (see `up_steps`); the caller
/// performs each step.
pub fn feature_up(state: &ProcessState, config: &AppConfigStore, name: &str) -> (r: Vec<UpStep>)
    ensures
        up_step_views(r@) == up_steps(*state, *config, name@),
{
    let rs = state.records();
    let ghost in_env = |r: ProcessRecord| in_envelope(r, name@);
    let mut out: Vec<UpStep> = Vec::new();
    let mut i: usize = 0;
    while i < rs.len()
        invariant
            i <= rs@.len(),
            rs@ == state.records_view(),
            in_env == (|r: ProcessRecord| in_envelope(r, name@)),
            up_step_views(out@) == members_up_steps(*config, rs@.take(i as int).filter(in_env)),
        decreases rs@.len() - i,
    {
        proof { lemma_filter_take(rs@, in_env, i as int); }
        let ghost prev = rs@.take(i as int).filter(in_env);
        if record_in(&rs[i], name) {
            member_steps(config, &rs[i], &mut out);
            assert(prev.push(rs@[i as int]).drop_last() =~= prev);
        }
        i += 1;
    }
    assert(rs@.take(rs@.len() as int) =~= rs@);
    let ghost mid = up_step_views(out@);
    let deps = state.deps(name);
    let ghost ds = sviews(deps@);
    let ghost wanted = |d: Seq<char>| !configured(rs@, name@, d);
    let ghost f = |d: Seq<char>| dep_up_step(*config, name@, d);
    let mut j: usize = 0;
    while j < deps.len()
        invariant
            j <= deps@.len(),
            ds == sviews(deps@),
            rs@ == state.records_view(),
            wanted == (|d: Seq<char>| !configured(rs@, name@, d)),
            f == (|d: Seq<char>| dep_up_step(*config, name@, d)),
            up_step_views(out@) == mid + ds.take(j as int).filter(wanted).map_values(f),
        decreases deps@.len() - j,
    {
        proof { lemma_filter_take(ds, wanted, j as int); }
        let ghost before = up_step_views(out@);
        let d = deps[j].as_str();
        assert(ds[j as int] == d@);
        if !configured_in(rs, name, d) {
            let step = match config.load_app_config(d) {
                Some(c) => UpStep::Dep {
                    key: dep_key_text(name, d),
                    cfg_name: copy_str(d),
                    instance: dep_instance(name, d),
                    config: c,
                },
                None => {
                    let mut m = String::from_str("dep ");
                    push_str(&mut m, d);
                    push_str(&mut m, ": app config not found — skipped");
                    UpStep::Note { message: m }
                },
            };
            out.push(step);
            assert(up_step_views(out@) =~= before.push(f(d@)));
        }
        j += 1;
    }
    assert(ds.take(deps@.len() as int) =~= ds);
    out
}

pub open spec fn refusal_message(pr: u64, cfg_name: Seq<char>) -> Seq<char> {
    "PR #"@ + dec(pr as nat) + ": app '"@ + cfg_name
        + "' is healthy but untracked — another process may be listening; cannot start. Stop it first or use `fp feature down` then retry."@
}

/// Whether starting `config` for member `pr` must stop everything: its
/// recorded process is not alive (`pid_alive`) and yet the health check of the
/// configuration passes (`check_passed`, the outcome of running it). The
/// message says why.
pub fn start_refusal(pr: u64, config: &AppConfig, pid_alive: bool, check_passed: bool) -> (r: Option<String>)
    ensures
        r is Some <==> (!pid_alive && config.health_check is Some && check_passed),
        r matches Some(m) ==> m@ == refusal_message(pr, config.name@),
{
    if !pid_alive && config.health_check.is_some() && check_passed {
        let mut m = String::from_str("PR #");
        push_u64(&mut m, pr);
        push_str(&mut m, ": app '");
        push_str(&mut m, config.name.as_str());
        push_str(&mut m, "' is healthy but untracked — another process may be listening; cannot start. Stop it first or use `fp feature down` then retry.");
        Some(m)
    } else {
        None
    }
}

/// Record that the shared instance `key` of configuration `cfg_name` runs for
/// envelope `name` as process `pid` from `worktree`; answers what to report.
pub fn dep_started(state: &mut ProcessState, name: &str, key: &str, cfg_name: &str, pid: u32, worktree: &str) -> (m: String)
    ensures
        m@ == "dep "@ + cfg_name@ + " (main): started"@,
        final(state).dep_record(key@) matches Some(d) && d.app_config_name@ == cfg_name@
            && d.feature_envelope@ == name@ && d.pid == Some(pid) && d.worktree@ == worktree@,
        forall|k: Seq<char>| k != key@ ==> final(state).dep_record(k) == old(state).dep_record(k),
        final(state).records_view() == old(state).records_view(),
        forall|n: Seq<char>| final(state).has_envelope(n) == old(state).has_envelope(n),
        forall|k: Seq<char>| final(state).deps_of(k) == old(state).deps_of(k),
        forall|k: Seq<char>| final(state).test_config(k) == old(state).test_config(k),
{
    state.put_dep_record(key, DepRecord {
        app_config_name: copy_str(cfg_name),
        feature_envelope: copy_str(name),
        pid: Some(pid),
        worktree: copy_str(worktree),
    });
    let mut m = String::from_str("dep ");
    push_str(&mut m, cfg_name);
    push_str(&mut m, " (main): started");
    m
}


// ---------------------------------------------------------------------------
// Rebuilding an envelope

/// A piece of the work of rebuilding an envelope.
pub enum RebuildStep {
    /// Nothing to rebuild; the message says why.
    Note { message: String },
    /// Start `command` again for the shared instance `key` (configuration
    /// `cfg_name`, instance `instance`) in the main worktree.
    Dep { key: String, cfg_name: String, instance: String, command: String },
    /// Run `command` of the ephemeral configuration `cfg_name` for member `pr`,
    /// in the worktree of `expected_branch`.
    Member { pr: u64, cfg_name: String, instance: String, expected_branch: String, command: String },
}

pub enum RebuildStepView {
    Note { message: Seq<char> },
    Dep { key: Seq<char>, cfg_name: Seq<char>, instance: Seq<char>, command: Seq<char> },
    Member { pr: u64, cfg_name: Seq<char>, instance: Seq<char>, expected_branch: Seq<char>, command: Seq<char> },
}

pub open spec fn rebuild_step_view(s: RebuildStep) -> RebuildStepView {
    match s {
        RebuildStep::Note { message } => RebuildStepView::Note { message: message@ },
        RebuildStep::Dep { key, cfg_name, instance, command } =>
            RebuildStepView::Dep { key: key@, cfg_name: cfg_name@, instance: instance@, command: command@ },
        RebuildStep::Member { pr, cfg_name, instance, expected_branch, command } =>
            RebuildStepView::Member { pr, cfg_name: cfg_name@, instance: instance@, expected_branch: expected_branch@, command: command@ },
    }
}

pub open spec fn rebuild_step_views(ss: Seq<RebuildStep>) -> Seq<RebuildStepView> {
    ss.map_values(|s: RebuildStep| rebuild_step_view(s))
}

pub open spec fn dep_rebuild_step(store: AppConfigStore, name: Seq<char>, k: Seq<char>) -> RebuildStepView {
    match store.config(dep_cfg(k)) {
        Some(c) => RebuildStepView::Dep {
            key: k,
            cfg_name: dep_cfg(k),
            instance: dep_instance_of(name, dep_cfg(k)),
            command: c.bootstrap@,
        },
        None => RebuildStepView::Note { message: "dep "@ + dep_cfg(k) + ": app config not found — skipped"@ },
    }
}

pub open spec fn persistent_message(pr: u64, cfg_name: Seq<char>) -> Seq<char> {
    "PR #"@ + dec(pr as nat) + ": uses a persistent app config '"@ + cfg_name
        + "' — use `fp feature down` + `fp feature up` instead"@
}

pub open spec fn member_rebuild_step(store: AppConfigStore, r: ProcessRecord) -> RebuildStepView {
    match first_config(store, r) {
        Some(c) => if c.ephemeral {
            RebuildStepView::Member {
                pr: r.pr,
                cfg_name: c.name@,
                instance: member_instance_of(r.pr),
                expected_branch: r.expected_branch@,
                command: c.bootstrap@,
            }
        } else {
            RebuildStepView::Note { message: persistent_message(r.pr, c.name@) }
        },
        None => RebuildStepView::Note { message: skipped_message(r.pr) },
    }
}

/// Whether member `r` is rebuilt under `pr_filter`: all of them when there is
/// none, else the one of that pull request.
pub open spec fn selected(r: ProcessRecord, pr_filter: Option<u64>) -> bool {
    match pr_filter {
        Some(p) => r.pr == p,
        None => true,
    }
}

/// The work of rebuilding envelope `name`: its shared instances when no pull
/// request or pull request 0 is asked for (and nothing else for 0), then its
/// selected members, in record order.
pub open spec fn rebuild_steps(state: ProcessState, store: AppConfigStore, name: Seq<char>, pr_filter: Option<u64>)
    -> Seq<RebuildStepView>
{
    (if pr_filter is None || pr_filter == Some(0u64) {
        dep_keys_of(state.dep_entries(), name).map_values(|k: Seq<char>| dep_rebuild_step(store, name, k))
    } else {
        seq![]
    }) + (if pr_filter == Some(0u64) {
        seq![]
    } else {
        state.records_view().filter(|r: ProcessRecord| in_envelope(r, name) && selected(r, pr_filter))
            .map_values(|r: ProcessRecord| member_rebuild_step(store, r))
    })
}

fn member_rebuild(config: &AppConfigStore, r: &ProcessRecord) -> (s: RebuildStep)
    ensures
        rebuild_step_view(s) == member_rebuild_step(*config, *r),
{
    match first_config_of(config, r) {
        Some(c) => if c.ephemeral {
            RebuildStep::Member {
                pr: r.pr,
                cfg_name: copy_str(c.name.as_str()),
                instance: member_instance(r.pr),
                expected_branch: copy_str(r.expected_branch.as_str()),
                command: copy_str(c.bootstrap.as_str()),
            }
        } else {
            let mut m = String::from_str("PR #");
            push_u64(&mut m, r.pr);
            push_str(&mut m, ": uses a persistent app config '");
            push_str(&mut m, c.name.as_str());
            push_str(&mut m, "' — use `fp feature down` + `fp feature up` instead");
            RebuildStep::Note { message: m }
        },
        None => RebuildStep::Note { message: skipped(r.pr) },
    }
}

/// The work of rebuilding envelope `name`, in order (see `rebuild_steps`); the
/// caller performs each step.
pub fn feature_rebuild(state: &ProcessState, config: &AppConfigStore, name: &str, pr_filter: Option<u64>)
    -> (r: Vec<RebuildStep>)
    ensures
        rebuild_step_views(r@) == rebuild_steps(*state, *config, name@, pr_filter),
{
    let mut out: Vec<RebuildStep> = Vec::new();
    let ghost ks = dep_keys_of(state.dep_entries(), name@);
    let ghost f = |k: Seq<char>| dep_rebuild_step(*config, name@, k);
    let all = match pr_filter {
        Some(p) => p == 0,
        None => true,
    };
    if all {
        let slots = dep_slots(state, name);
        let mut j: usize = 0;
        while j < slots.len()
            invariant
                j <= slots@.len(),
                slots@.map_values(|e: (String, String, String)| e.0@) == ks,
                forall|q: int| 0 <= q < slots@.len() ==> ((#[trigger] slots@[q]).1@ == dep_cfg(slots@[q].0@)
                    && (state.dep_record(slots@[q].0@) matches Some(d) && d.worktree@ == slots@[q].2@)),
                f == (|k: Seq<char>| dep_rebuild_step(*config, name@, k)),
                rebuild_step_views(out@) == ks.take(j as int).map_values(f),
            decreases slots@.len() - j,
        {
            let ghost before = rebuild_step_views(out@);
            let ghost k = slots@[j as int].0@;
            assert(ks[j as int] == k);
            let cfg_name = slots[j].1.as_str();
            let step = match config.load_app_config(cfg_name) {
                Some(c) => RebuildStep::Dep {
                    key: copy_str(slots[j].0.as_str()),
                    cfg_name: copy_str(cfg_name),
                    instance: dep_instance(name, cfg_name),
                    command: copy_str(c.bootstrap.as_str()),
                },
                None => {
                    let mut m = String::from_str("dep ");
                    push_str(&mut m, cfg_name);
                    push_str(&mut m, ": app config not found — skipped");
                    RebuildStep::Note { message: m }
                },
            };
            out.push(step);
            assert(ks.take(j + 1) =~= ks.take(j as int).push(k));
            assert(rebuild_step_views(out@) =~= before.push(f(k)));
            j += 1;
        }
        assert(ks.take(slots@.len() as int) =~= ks);
        if pr_filter.is_some() {
            assert(rebuild_step_views(out@) =~= rebuild_steps(*state, *config, name@, pr_filter));
            return out;
        }
    }
    let ghost mid = rebuild_step_views(out@);
    let rs = state.records();
    let ghost pred = |r: ProcessRecord| in_envelope(r, name@) && selected(r, pr_filter);
    let ghost g = |r: ProcessRecord| member_rebuild_step(*config, r);
    let mut i: usize = 0;
    while i < rs.len()
        invariant
            i <= rs@.len(),
            rs@ == state.records_view(),
            pred == (|r: ProcessRecord| in_envelope(r, name@) && selected(r, pr_filter)),
            g == (|r: ProcessRecord| member_rebuild_step(*config, r)),
            rebuild_step_views(out@) == mid + rs@.take(i as int).filter(pred).map_values(g),
        decreases rs@.len() - i,
    {
        proof { lemma_filter_take(rs@, pred, i as int); }
        let ghost before = rebuild_step_views(out@);
        let chosen = match pr_filter {
            Some(p) => rs[i].pr == p,
            None => true,
        };
        if record_in(&rs[i], name) && chosen {
            out.push(member_rebuild(config, &rs[i]));
            assert(rebuild_step_views(out@) =~= before.push(g(rs@[i as int])));
        }
        i += 1;
    }
    assert(rs@.take(rs@.len() as int) =~= rs@);
    out
}

pub fn dep_rebuilt_message(cfg_name: &str) -> (m: String)
    ensures
        m@ == "dep "@ + cfg_name@ + " (main): rebuilt"@,
{
    let mut m = String::from_str("dep ");
    push_str(&mut m, cfg_name);
    push_str(&mut m, " (main): rebuilt");
    m
}

pub fn member_rebuilt_message(pr: u64, cfg_name: &str) -> (m: String)
    ensures
        m@ == "PR #"@ + dec(pr as nat) + ": rebuilt ("@ + cfg_name@ + ")"@,
{
    let mut m = String::from_str("PR #");
    push_u64(&mut m, pr);
    push_str(&mut m, ": rebuilt (");
    push_str(&mut m, cfg_name);
    push_str(&mut m, ")");
    m
}

} // verus!
