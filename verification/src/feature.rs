//! Feature envelopes: groups of pull requests whose services run together.
//!
//! Whether a process is alive is a question for the operating system; the
//! functions here take the live process ids as an argument.
use vstd::prelude::*;
use crate::keyed::lemma_filter_take;
use crate::process::{
    ProcessState, ProcessRecord, envelope_of, is_alive, in_envelope, member_prs, prs_in, record_in,
    find_record, record_of, lemma_record_of, distinct_prs,
};
use crate::text::{copy_str, sviews, str_eq, sorted_strict, seq_lt};
use crate::app_config::{AppConfig, AppConfigStore};

verus! {

/// An envelope and its member pull requests.
#[derive(Debug, Clone)]
pub struct FeatureInfo {
    pub name: String,
    pub prs: Vec<u64>,
}

pub open spec fn info_view(f: FeatureInfo) -> (Seq<char>, Seq<u64>) {
    (f.name@, f.prs@)
}

pub open spec fn infos_view(fs: Seq<FeatureInfo>) -> Seq<(Seq<char>, Seq<u64>)> {
    fs.map_values(|f: FeatureInfo| info_view(f))
}

/// An envelope described by its name and members.
pub open spec fn described(rs: Seq<ProcessRecord>, n: Seq<char>) -> (Seq<char>, Seq<u64>) {
    (n, member_prs(rs, n))
}

/// Whether some member of envelope `n` runs a live process.
pub open spec fn running(rs: Seq<ProcessRecord>, n: Seq<char>, live: Seq<u32>) -> bool {
    exists|i: int| 0 <= i < rs.len() && in_envelope(#[trigger] rs[i], n) && is_alive(rs[i], live)
}

#[derive(Debug)]
pub enum ConflictResult {
    NoConflict,
    Conflict { blocking_feature: String, blocking_prs: Vec<u64> },
}

/// The health of one member of an envelope.
#[derive(Debug, Clone, Copy)]
pub struct PrHealthStatus {
    pub pr: u64,
    pub pid_alive: bool,
    pub service_healthy: Option<bool>,
    pub branch_ok: Option<bool>,
}

/// Whether record `r` keeps the envelope `name` from starting: it belongs to
/// another envelope and its process is alive.
pub open spec fn blocks(r: ProcessRecord, name: Seq<char>, live: Seq<u32>) -> bool {
    match envelope_of(r) {
        Some(e) => e != name && is_alive(r, live),
        None => false,
    }
}

pub open spec fn blocking(rs: Seq<ProcessRecord>, name: Seq<char>, live: Seq<u32>) -> Seq<ProcessRecord> {
    rs.filter(|r: ProcessRecord| blocks(r, name, live))
}

/// What holds an envelope back is exactly the live records of other
/// envelopes: a record of the envelope being started, or one outside any
/// envelope, never blocks it, and every live record of another envelope does.
/// So when each live record belongs to the envelope itself or to none, nothing
/// blocks it.
pub proof fn law_blocking_is_live_other_envelopes(rs: Seq<ProcessRecord>, name: Seq<char>, live: Seq<u32>)
    ensures
        forall|x: ProcessRecord| #[trigger] blocking(rs, name, live).contains(x) ==> {
            &&& envelope_of(x) is Some
            &&& envelope_of(x) != Some(name)
            &&& is_alive(x, live)
        },
        forall|i: int| 0 <= i < rs.len() && envelope_of(#[trigger] rs[i]) is Some && envelope_of(rs[i]) != Some(name)
            && is_alive(rs[i], live) ==> blocking(rs, name, live).contains(rs[i]),
        (forall|i: int| 0 <= i < rs.len() && is_alive(#[trigger] rs[i], live)
            ==> envelope_of(rs[i]) is None || envelope_of(rs[i]) == Some(name)) ==> blocking(rs, name, live).len() == 0,
{
    let pred = |r: ProcessRecord| blocks(r, name, live);
    let b = blocking(rs, name, live);
    rs.filter_lemma(pred);
    assert forall|x: ProcessRecord| #[trigger] b.contains(x) implies envelope_of(x) is Some && envelope_of(x) != Some(name)
        && is_alive(x, live) by {
        let k = choose|k: int| 0 <= k < b.len() && b[k] == x;
        assert(pred(b[k]));
    }
    if (forall|i: int| 0 <= i < rs.len() && is_alive(#[trigger] rs[i], live)
        ==> envelope_of(rs[i]) is None || envelope_of(rs[i]) == Some(name)) && b.len() > 0 {
        assert(b.contains(b[0]));
        rs.lemma_filter_contains_rev(pred, b[0]);
        let j = choose|j: int| 0 <= j < rs.len() && rs[j] == b[0];
        assert(is_alive(rs[j], live));
    }
}

/// Whether `p` is among `live`.
pub fn contains_pid(live: &[u32], p: u32) -> (b: bool)
    ensures
        b == live@.contains(p),
{
    let mut i: usize = 0;
    while i < live.len()
        invariant
            i <= live@.len(),
            forall|j: int| 0 <= j < i ==> live@[j] != p,
        decreases live@.len() - i,
    {
        if live[i] == p {
            return true;
        }
        i += 1;
    }
    false
}

/// Whether the process of `r` is alive.
pub fn record_alive(r: &ProcessRecord, live: &[u32]) -> (b: bool)
    ensures
        b == is_alive(*r, live@),
{
    match r.pid {
        Some(p) => contains_pid(live, p),
        None => false,
    }
}

/// Whether some member of envelope `name` runs a live process.
pub fn any_running(rs: &Vec<ProcessRecord>, name: &str, live: &[u32]) -> (b: bool)
    ensures
        b == running(rs@, name@, live@),
{
    let mut i: usize = 0;
    while i < rs.len()
        invariant
            i <= rs@.len(),
            forall|j: int| 0 <= j < i ==> !(in_envelope(#[trigger] rs@[j], name@) && is_alive(rs@[j], live@)),
        decreases rs@.len() - i,
    {
        if record_in(&rs[i], name) && record_alive(&rs[i], live) {
            return true;
        }
        i += 1;
    }
    false
}

/// Whether `p` is the pull request of a record of envelope `name`.
pub open spec fn pr_of_member(rs: Seq<ProcessRecord>, name: Seq<char>, p: u64) -> bool {
    exists|i: int| 0 <= i < rs.len() && in_envelope(#[trigger] rs[i], name) && rs[i].pr == p
}

/// A record that belongs to an envelope is listed among its members, and each
/// listed member is the pull request of a record of that envelope.
pub proof fn law_members_listed(rs: Seq<ProcessRecord>, name: Seq<char>)
    ensures
        forall|i: int| 0 <= i < rs.len() && in_envelope(#[trigger] rs[i], name) ==> member_prs(rs, name).contains(rs[i].pr),
        forall|k: int| 0 <= k < member_prs(rs, name).len() ==> pr_of_member(rs, name, #[trigger] member_prs(rs, name)[k]),
{
    let pred = |r: ProcessRecord| in_envelope(r, name);
    rs.filter_lemma(pred);
    let f = rs.filter(pred);
    assert forall|i: int| 0 <= i < rs.len() && in_envelope(#[trigger] rs[i], name) implies member_prs(rs, name).contains(rs[i].pr) by {
        assert(pred(rs[i]));
        assert(f.contains(rs[i]));
        let k = choose|k: int| 0 <= k < f.len() && f[k] == rs[i];
        assert(member_prs(rs, name)[k] == rs[i].pr);
    }
    assert forall|k: int| 0 <= k < member_prs(rs, name).len() implies pr_of_member(rs, name, #[trigger] member_prs(rs, name)[k]) by {
        assert(pred(f[k]));
        assert(f.contains(f[k]));
        rs.lemma_filter_contains_rev(pred, f[k]);
        assert(rs.contains(f[k]));
        let i = choose|i: int| 0 <= i < rs.len() && rs[i] == f[k];
        assert(in_envelope(rs[i], name));
        assert(member_prs(rs, name)[k] == f[k].pr);
    }
}

/// Create the envelope `name` (nothing changes when it exists).
pub fn feature_new(state: &mut ProcessState, name: &str)
    ensures
        final(state).has_envelope(name@),
        forall|n: Seq<char>| n != name@ ==> final(state).has_envelope(n) == old(state).has_envelope(n),
        final(state).records_view() == old(state).records_view(),
        forall|k: Seq<char>| final(state).dep_record(k) == old(state).dep_record(k),
        final(state).dep_entries() == old(state).dep_entries(),
        forall|k: Seq<char>| final(state).deps_of(k) == old(state).deps_of(k),
        forall|k: Seq<char>| final(state).test_config(k) == old(state).test_config(k),
{
    state.insert_envelope(name);
}

/// Add `app_config_name` as a shared dependency of `envelope`, creating the
/// envelope when it does not exist.
pub fn feature_add_dep(state: &mut ProcessState, envelope: &str, app_config_name: &str)
    ensures
        final(state).has_envelope(envelope@),
        forall|n: Seq<char>| n != envelope@ ==> final(state).has_envelope(n) == old(state).has_envelope(n),
        final(state).deps_of(envelope@) == Some(match old(state).deps_of(envelope@) {
            Some(d) => d,
            None => Seq::<Seq<char>>::empty(),
        }.push(app_config_name@)),
        forall|k: Seq<char>| k != envelope@ ==> final(state).deps_of(k) == old(state).deps_of(k),
        final(state).records_view() == old(state).records_view(),
        forall|k: Seq<char>| final(state).dep_record(k) == old(state).dep_record(k),
        final(state).dep_entries() == old(state).dep_entries(),
        forall|k: Seq<char>| final(state).test_config(k) == old(state).test_config(k),
{
    state.insert_envelope(envelope);
    state.add_dep(envelope, app_config_name);
}

/// `names` followed by each of `add` that is not already there.
pub open spec fn append_new(names: Seq<Seq<char>>, add: Seq<Seq<char>>) -> Seq<Seq<char>>
    decreases add.len(),
{
    if add.len() == 0 {
        names
    } else {
        let pre = append_new(names, add.drop_last());
        if pre.contains(add.last()) {
            pre
        } else {
            pre.push(add.last())
        }
    }
}

/// Whether `v` holds `x`.
pub fn has_string(v: &Vec<String>, x: &str) -> (b: bool)
    ensures
        b == sviews(v@).contains(x@),
{
    let mut i: usize = 0;
    while i < v.len()
        invariant
            i <= v@.len(),
            forall|j: int| 0 <= j < i ==> v@[j]@ != x@,
        decreases v@.len() - i,
    {
        if crate::text::str_eq(v[i].as_str(), x) {
            assert(sviews(v@)[i as int] == x@);
            return true;
        }
        i += 1;
    }
    proof {
        if sviews(v@).contains(x@) {
            let k = choose|k: int| 0 <= k < sviews(v@).len() && sviews(v@)[k] == x@;
            assert(v@[k]@ == x@);
        }
    }
    false
}

/// What record `pr` holds after it joins the envelope `name` with the app
/// configurations `configs`.
pub open spec fn joined(old_rec: Option<ProcessRecord>, r: ProcessRecord, pr: u64, name: Seq<char>,
    configs: Seq<Seq<char>>, branch: Seq<char>, worktree: Seq<char>) -> bool
{
    &&& r.pr == pr
    &&& envelope_of(r) == Some(name)
    &&& match old_rec {
        Some(o) => {
            &&& r.expected_branch@ == o.expected_branch@
            &&& r.pid == o.pid
            &&& r.worktree@ == o.worktree@
            &&& sviews(r.app_config_names@) == append_new(sviews(o.app_config_names@), configs)
        },
        None => {
            &&& r.expected_branch@ == branch
            &&& r.pid is None
            &&& r.worktree@ == worktree
            &&& sviews(r.app_config_names@) == append_new(seq![], configs)
        },
    }
}

/// Make pull request `pr` a member of the envelope `name`, creating the
/// envelope and the record as needed, and give it the app configurations of
/// `configs` it does not have yet. A new record starts on `branch`, in
/// `worktree`, with no process.
pub fn feature_add(state: &mut ProcessState, name: &str, pr: u64, configs: &[String], branch: &str, worktree: &str)
    ensures
        final(state).has_envelope(name@),
        forall|n: Seq<char>| n != name@ ==> final(state).has_envelope(n) == old(state).has_envelope(n),
        exists|i: int| 0 <= i < final(state).records_view().len()
            && joined(record_of(old(state).records_view(), pr), #[trigger] final(state).records_view()[i], pr, name@,
                sviews(configs@), branch@, worktree@),
        forall|r: ProcessRecord| old(state).records_view().contains(r) && r.pr != pr ==> final(state).records_view().contains(r),
        forall|r: ProcessRecord| final(state).records_view().contains(r) ==> r.pr == pr || old(state).records_view().contains(r),
        forall|k: Seq<char>| final(state).dep_record(k) == old(state).dep_record(k),
        final(state).dep_entries() == old(state).dep_entries(),
        forall|k: Seq<char>| final(state).deps_of(k) == old(state).deps_of(k),
        forall|k: Seq<char>| final(state).test_config(k) == old(state).test_config(k),
{
    let ghost old_rec = record_of(state.records_view(), pr);
    state.insert_envelope(name);
    let taken = state.remove_record(pr);
    let mut rec = match taken {
        Some(r) => r,
        None => ProcessRecord {
            pr,
            expected_branch: copy_str(branch),
            pid: None,
            feature_envelope: None,
            worktree: copy_str(worktree),
            app_config_names: Vec::new(),
        },
    };
    assert(sviews(rec.app_config_names@) == append_new(
        match old_rec { Some(o) => sviews(o.app_config_names@), None => seq![] }, sviews(configs@).take(0)));
    rec.feature_envelope = Some(copy_str(name));
    let ghost base = match old_rec { Some(o) => sviews(o.app_config_names@), None => Seq::<Seq<char>>::empty() };
    let mut i: usize = 0;
    while i < configs.len()
        invariant
            i <= configs@.len(),
            sviews(rec.app_config_names@) == append_new(base, sviews(configs@).take(i as int)),
            rec.pr == pr,
            envelope_of(rec) == Some(name@),
            match old_rec {
                Some(o) => rec.expected_branch@ == o.expected_branch@ && rec.pid == o.pid && rec.worktree@ == o.worktree@,
                None => rec.expected_branch@ == branch@ && rec.pid is None && rec.worktree@ == worktree@,
            },
        decreases configs@.len() - i,
    {
        let ghost before = sviews(rec.app_config_names@);
        let ghost add = sviews(configs@).take(i + 1);
        assert(add.drop_last() =~= sviews(configs@).take(i as int));
        assert(add.last() == configs@[i as int]@);
        if !has_string(&rec.app_config_names, configs[i].as_str()) {
            rec.app_config_names.push(copy_str(configs[i].as_str()));
            assert(sviews(rec.app_config_names@) =~= before.push(configs@[i as int]@));
        }
        i += 1;
    }
    assert(sviews(configs@).take(configs@.len() as int) =~= sviews(configs@));
    let ghost fin = rec;
    assert(joined(old_rec, fin, pr, name@, sviews(configs@), branch@, worktree@));
    state.put_record(rec);
}

/// Every envelope, in order of name, with its member pull requests.
pub fn feature_list(state: &ProcessState) -> (r: Vec<FeatureInfo>)
    ensures
        infos_view(r@) == state.envelopes().map_values(|n: Seq<char>| described(state.records_view(), n)),
        sorted_strict(state.envelopes()),
        forall|n: Seq<char>| state.has_envelope(n) <==> state.envelopes().contains(n),
{
    let names = state.envelope_names();
    let rs = state.records();
    let ghost ns = state.envelopes();
    let mut out: Vec<FeatureInfo> = Vec::new();
    let mut i: usize = 0;
    while i < names.len()
        invariant
            i <= names@.len(),
            names@.map_values(|s: String| s@) == ns,
            rs@ == state.records_view(),
            infos_view(out@) == ns.take(i as int).map_values(|n: Seq<char>| described(rs@, n)),
        decreases names@.len() - i,
    {
        let ghost before = infos_view(out@);
        let prs = prs_in(rs, names[i].as_str());
        out.push(FeatureInfo { name: copy_str(names[i].as_str()), prs });
        assert(ns[i as int] == names@[i as int]@);
        assert(infos_view(out@) =~= before.push(described(rs@, ns[i as int])));
        assert(ns.take(i + 1).map_values(|n: Seq<char>| described(rs@, n))
            =~= ns.take(i as int).map_values(|n: Seq<char>| described(rs@, n)).push(described(rs@, ns[i as int])));
        i += 1;
    }
    assert(ns.take(names@.len() as int) =~= ns);
    out
}

/// The envelopes with a member whose process is alive (its pid among `live`),
/// in order of name, with their member pull requests.
pub fn feature_list_running(state: &ProcessState, live: &[u32]) -> (r: Vec<FeatureInfo>)
    ensures
        infos_view(r@) == state.envelopes().filter(|n: Seq<char>| running(state.records_view(), n, live@))
            .map_values(|n: Seq<char>| described(state.records_view(), n)),
{
    let names = state.envelope_names();
    let rs = state.records();
    let ghost ns = state.envelopes();
    let ghost pred = |n: Seq<char>| running(rs@, n, live@);
    let mut out: Vec<FeatureInfo> = Vec::new();
    let mut i: usize = 0;
    while i < names.len()
        invariant
            i <= names@.len(),
            names@.map_values(|s: String| s@) == ns,
            rs@ == state.records_view(),
            pred == (|n: Seq<char>| running(rs@, n, live@)),
            infos_view(out@) == ns.take(i as int).filter(pred).map_values(|n: Seq<char>| described(rs@, n)),
        decreases names@.len() - i,
    {
        let ghost before = ns.take(i as int).filter(pred);
        proof { lemma_filter_take(ns, pred, i as int); }
        assert(ns[i as int] == names@[i as int]@);
        if any_running(rs, names[i].as_str(), live) {
            let prs = prs_in(rs, names[i].as_str());
            out.push(FeatureInfo { name: copy_str(names[i].as_str()), prs });
            assert(before.push(ns[i as int]).map_values(|n: Seq<char>| described(rs@, n))
                =~= before.map_values(|n: Seq<char>| described(rs@, n)).push(described(rs@, ns[i as int])));
            assert(infos_view(out@) =~= before.map_values(|n: Seq<char>| described(rs@, n)).push(described(rs@, ns[i as int])));
        }
        i += 1;
    }
    assert(ns.take(names@.len() as int) =~= ns);
    out
}

/// Whether another envelope has a member with a live process (its pid among
/// `live`): those members and the envelope of the last of them.
pub fn check_conflicts(state: &ProcessState, envelope_name: &str, live: &[u32]) -> (r: ConflictResult)
    ensures
        (forall|i: int| 0 <= i < state.records_view().len() && is_alive(#[trigger] state.records_view()[i], live@)
            ==> envelope_of(state.records_view()[i]) is None
                || envelope_of(state.records_view()[i]) == Some(envelope_name@)) ==> r is NoConflict,
        r matches ConflictResult::Conflict { blocking_feature, .. } ==> blocking_feature@ != envelope_name@,
        match r {
            ConflictResult::NoConflict => blocking(state.records_view(), envelope_name@, live@).len() == 0,
            ConflictResult::Conflict { blocking_feature, blocking_prs } => {
                let b = blocking(state.records_view(), envelope_name@, live@);
                &&& b.len() > 0
                &&& blocking_prs@ == b.map_values(|x: ProcessRecord| x.pr)
                &&& envelope_of(b.last()) == Some(blocking_feature@)
            },
        },
{
    let rs = state.records();
    let ghost pred = |x: ProcessRecord| blocks(x, envelope_name@, live@);
    let mut prs: Vec<u64> = Vec::new();
    let mut feature = String::new();
    let mut i: usize = 0;
    while i < rs.len()
        invariant
            i <= rs@.len(),
            pred == (|x: ProcessRecord| blocks(x, envelope_name@, live@)),
            prs@ == rs@.take(i as int).filter(pred).map_values(|x: ProcessRecord| x.pr),
            prs@.len() > 0 ==> envelope_of(rs@.take(i as int).filter(pred).last()) == Some(feature@),
        decreases rs@.len() - i,
    {
        let ghost before = rs@.take(i as int).filter(pred);
        proof { lemma_filter_take(rs@, pred, i as int); }
        let blocks_here = match &rs[i].feature_envelope {
            Some(e) => !crate::text::str_eq(e.as_str(), envelope_name) && record_alive(&rs[i], live),
            None => false,
        };
        if blocks_here {
            prs.push(rs[i].pr);
            match &rs[i].feature_envelope {
                Some(e) => { feature = copy_str(e.as_str()); },
                None => {},
            }
            assert(before.push(rs@[i as int]).map_values(|x: ProcessRecord| x.pr)
                =~= before.map_values(|x: ProcessRecord| x.pr).push(rs@[i as int].pr));
        }
        i += 1;
    }
    assert(rs@.take(rs@.len() as int) =~= rs@);
    proof { law_blocking_is_live_other_envelopes(rs@, envelope_name@, live@); }
    if prs.len() == 0 {
        ConflictResult::NoConflict
    } else {
        ConflictResult::Conflict { blocking_feature: feature, blocking_prs: prs }
    }
}

/// The first app configuration of record `r`, as `store` defines it.
pub open spec fn first_config(store: AppConfigStore, r: ProcessRecord) -> Option<AppConfig> {
    if r.app_config_names@.len() > 0 {
        store.config(r.app_config_names@[0]@)
    } else {
        None
    }
}

/// Whether the services of record `r` are up: for an ephemeral configuration,
/// its health check passed (`r.pr` among `healthy`); else its process is alive.
pub open spec fn member_up(store: AppConfigStore, r: ProcessRecord, live: Seq<u32>, healthy: Seq<u64>) -> bool {
    match first_config(store, r) {
        Some(c) => if c.ephemeral {
            c.health_check is None || healthy.contains(r.pr)
        } else {
            is_alive(r, live)
        },
        None => is_alive(r, live),
    }
}

pub open spec fn running_with_config(store: AppConfigStore, rs: Seq<ProcessRecord>, n: Seq<char>, live: Seq<u32>,
    healthy: Seq<u64>) -> bool
{
    exists|i: int| 0 <= i < rs.len() && in_envelope(#[trigger] rs[i], n) && member_up(store, rs[i], live, healthy)
}

pub fn contains_pr(prs: &[u64], pr: u64) -> (b: bool)
    ensures
        b == prs@.contains(pr),
{
    let mut i: usize = 0;
    while i < prs.len()
        invariant
            i <= prs@.len(),
            forall|j: int| 0 <= j < i ==> prs@[j] != pr,
        decreases prs@.len() - i,
    {
        if prs[i] == pr {
            return true;
        }
        i += 1;
    }
    false
}

fn record_up(config: &AppConfigStore, r: &ProcessRecord, live: &[u32], healthy: &[u64]) -> (b: bool)
    ensures
        b == member_up(*config, *r, live@, healthy@),
{
    let cfg = if r.app_config_names.len() > 0 {
        config.load_app_config(r.app_config_names[0].as_str())
    } else {
        None
    };
    match cfg {
        Some(c) => if c.ephemeral {
            c.health_check.is_none() || contains_pr(healthy, r.pr)
        } else {
            record_alive(r, live)
        },
        None => record_alive(r, live),
    }
}

fn any_up(config: &AppConfigStore, rs: &Vec<ProcessRecord>, name: &str, live: &[u32], healthy: &[u64]) -> (b: bool)
    ensures
        b == running_with_config(*config, rs@, name@, live@, healthy@),
{
    let mut i: usize = 0;
    while i < rs.len()
        invariant
            i <= rs@.len(),
            forall|j: int| 0 <= j < i ==> !(in_envelope(#[trigger] rs@[j], name@) && member_up(*config, rs@[j], live@, healthy@)),
        decreases rs@.len() - i,
    {
        if record_in(&rs[i], name) && record_up(config, &rs[i], live, healthy) {
            return true;
        }
        i += 1;
    }
    false
}

/// The envelopes with a member whose services are up, in order of name, with
/// their members: a member with an ephemeral configuration is up when it has no
/// health check or its health check passed (its pull request among `healthy`),
/// any other when its process is alive (its pid among `live`).
pub fn feature_list_running_with_config(state: &ProcessState, config: &AppConfigStore, live: &[u32], healthy: &[u64])
    -> (r: Vec<FeatureInfo>)
    ensures
        infos_view(r@) == state.envelopes().filter(|n: Seq<char>| running_with_config(*config, state.records_view(), n, live@, healthy@))
            .map_values(|n: Seq<char>| described(state.records_view(), n)),
{
    let names = state.envelope_names();
    let rs = state.records();
    let ghost ns = state.envelopes();
    let ghost pred = |n: Seq<char>| running_with_config(*config, rs@, n, live@, healthy@);
    let mut out: Vec<FeatureInfo> = Vec::new();
    let mut i: usize = 0;
    while i < names.len()
        invariant
            i <= names@.len(),
            names@.map_values(|s: String| s@) == ns,
            rs@ == state.records_view(),
            pred == (|n: Seq<char>| running_with_config(*config, rs@, n, live@, healthy@)),
            infos_view(out@) == ns.take(i as int).filter(pred).map_values(|n: Seq<char>| described(rs@, n)),
        decreases names@.len() - i,
    {
        let ghost before = ns.take(i as int).filter(pred);
        proof { lemma_filter_take(ns, pred, i as int); }
        assert(ns[i as int] == names@[i as int]@);
        if any_up(config, rs, names[i].as_str(), live, healthy) {
            let prs = prs_in(rs, names[i].as_str());
            out.push(FeatureInfo { name: copy_str(names[i].as_str()), prs });
            assert(before.push(ns[i as int]).map_values(|n: Seq<char>| described(rs@, n))
                =~= before.map_values(|n: Seq<char>| described(rs@, n)).push(described(rs@, ns[i as int])));
            assert(infos_view(out@) =~= before.map_values(|n: Seq<char>| described(rs@, n)).push(described(rs@, ns[i as int])));
        }
        i += 1;
    }
    assert(ns.take(names@.len() as int) =~= ns);
    out
}


/// The worktree a record with `branch` runs in: the repository itself when it
/// expects no branch, else the worktree of that branch.
pub open spec fn resolved_worktree(root: Seq<char>, branch: Seq<char>) -> Seq<char> {
    if branch.len() == 0 { root } else { crate::worktree::worktree_path_of(root, branch) }
}

pub fn resolve_worktree(repo_root: &str, branch: &str) -> (r: String)
    ensures
        r@ == resolved_worktree(repo_root@, branch@),
{
    if branch.is_empty() {
        copy_str(repo_root)
    } else {
        crate::worktree::worktree_path(repo_root, branch)
    }
}

/// The HEAD read in the worktree of pull request `pr`: the first pair of
/// `heads` for it.
pub open spec fn head_of(heads: Seq<(u64, String)>, pr: u64) -> Option<Seq<char>>
    decreases heads.len(),
{
    if heads.len() == 0 {
        None
    } else if heads[0].0 == pr {
        Some(heads[0].1@)
    } else {
        head_of(heads.drop_first(), pr)
    }
}

fn find_head(heads: &[(u64, String)], pr: u64) -> (r: Option<&String>)
    ensures
        match r {
            Some(h) => head_of(heads@, pr) == Some(h@),
            None => head_of(heads@, pr) is None,
        },
{
    let mut i: usize = 0;
    assert(heads@.subrange(0, heads@.len() as int) =~= heads@);
    while i < heads.len()
        invariant
            i <= heads@.len(),
            head_of(heads@, pr) == head_of(heads@.subrange(i as int, heads@.len() as int), pr),
        decreases heads@.len() - i,
    {
        let ghost t = heads@.subrange(i as int, heads@.len() as int);
        assert(t[0] == heads@[i as int]);
        if heads[i].0 == pr {
            return Some(&heads[i].1);
        }
        assert(t.drop_first() =~= heads@.subrange(i + 1, heads@.len() as int));
        i += 1;
    }
    None
}

/// The health of member `r`: an ephemeral configuration runs no tracked
/// process; the service's health is known when its configuration has a health
/// check (passed when `r.pr` is among `healthy`); the branch is checked when the
/// record expects one and its worktree's HEAD was read (among `heads`).
pub open spec fn member_status(store: AppConfigStore, r: ProcessRecord, live: Seq<u32>, healthy: Seq<u64>,
    heads: Seq<(u64, String)>) -> PrHealthStatus
{
    let cfg = first_config(store, r);
    PrHealthStatus {
        pr: r.pr,
        pid_alive: match cfg {
            Some(c) => !c.ephemeral && is_alive(r, live),
            None => is_alive(r, live),
        },
        service_healthy: match cfg {
            Some(c) => if c.health_check is Some { Some(healthy.contains(r.pr)) } else { None },
            None => None,
        },
        branch_ok: if r.expected_branch@.len() == 0 {
            None
        } else {
            match head_of(heads, r.pr) {
                Some(h) => Some(h == r.expected_branch@),
                None => None,
            }
        },
    }
}

/// A member's status follows its recorded process: with no process recorded
/// (as after the envelope was stopped) it never shows as running; with a live
/// process and a configuration that is not ephemeral it always does.
pub proof fn law_status_follows_process(store: AppConfigStore, r: ProcessRecord, live: Seq<u32>, healthy: Seq<u64>,
    heads: Seq<(u64, String)>)
    ensures
        r.pid is None ==> !member_status(store, r, live, healthy, heads).pid_alive,
        (r.pid matches Some(p) && live.contains(p)) && !(first_config(store, r) matches Some(c) && c.ephemeral)
            ==> member_status(store, r, live, healthy, heads).pid_alive,
        member_status(store, r, live, healthy, heads).pr == r.pr,
{
}

/// Statuses in strictly increasing order of pull request.
pub open spec fn sorted_by_pr(v: Seq<PrHealthStatus>) -> bool {
    forall|i: int, j: int| 0 <= i < j < v.len() ==> (#[trigger] v[i]).pr < (#[trigger] v[j]).pr
}

/// Whether `x` is the status of some member of envelope `name`.
pub open spec fn is_member_status(store: AppConfigStore, rs: Seq<ProcessRecord>, name: Seq<char>, live: Seq<u32>,
    healthy: Seq<u64>, heads: Seq<(u64, String)>, x: PrHealthStatus) -> bool
{
    exists|i: int| 0 <= i < rs.len() && in_envelope(#[trigger] rs[i], name)
        && x == member_status(store, rs[i], live, healthy, heads)
}

/// The status of each member of envelope `name`, in order of pull request.
pub open spec fn member_statuses(store: AppConfigStore, rs: Seq<ProcessRecord>, name: Seq<char>, live: Seq<u32>,
    healthy: Seq<u64>, heads: Seq<(u64, String)>) -> Seq<PrHealthStatus>
{
    choose|v: Seq<PrHealthStatus>| sorted_by_pr(v)
        && forall|x: PrHealthStatus| v.contains(x) <==> is_member_status(store, rs, name, live, healthy, heads, x)
}

/// Two sequences of statuses in strictly increasing order of pull request that
/// hold the same statuses are equal.
pub proof fn lemma_sorted_by_pr_unique(a: Seq<PrHealthStatus>, b: Seq<PrHealthStatus>)
    requires
        sorted_by_pr(a),
        sorted_by_pr(b),
        forall|x: PrHealthStatus| a.contains(x) <==> b.contains(x),
    ensures
        a == b,
    decreases a.len(),
{
    if a.len() == 0 {
        if b.len() > 0 {
            assert(b.contains(b[0]));
        }
        assert(a =~= b);
    } else {
        assert(a.contains(a[0]));
        let k = choose|k: int| 0 <= k < b.len() && b[k] == a[0];
        assert(b.contains(b[0]));
        let m = choose|m: int| 0 <= m < a.len() && a[m] == b[0];
        if k > 0 {
            assert(b[0].pr < b[k].pr);
            if m > 0 {
                assert(a[0].pr < a[m].pr);
            }
        }
        assert(b[0] == a[0]);
        let a1 = a.drop_first();
        let b1 = b.drop_first();
        assert forall|x: PrHealthStatus| a1.contains(x) <==> b1.contains(x) by {
            if a1.contains(x) {
                let i = choose|i: int| 0 <= i < a1.len() && a1[i] == x;
                assert(a[i + 1] == x);
                assert(a[0].pr < a[i + 1].pr);
                assert(a.contains(x));
                let j = choose|j: int| 0 <= j < b.len() && b[j] == x;
                assert(j != 0);
                assert(b1[j - 1] == x);
            }
            if b1.contains(x) {
                let i = choose|i: int| 0 <= i < b1.len() && b1[i] == x;
                assert(b[i + 1] == x);
                assert(b[0].pr < b[i + 1].pr);
                assert(b.contains(x));
                let j = choose|j: int| 0 <= j < a.len() && a[j] == x;
                assert(j != 0);
                assert(a1[j - 1] == x);
            }
        }
        assert(sorted_by_pr(a1));
        assert(sorted_by_pr(b1));
        lemma_sorted_by_pr_unique(a1, b1);
        assert(a =~= b) by {
            assert(a.len() == a1.len() + 1);
            assert(b.len() == b1.len() + 1);
            assert forall|i: int| 0 <= i < a.len() implies a[i] == b[i] by {
                if i > 0 {
                    assert(a[i] == a1[i - 1]);
                    assert(b[i] == b1[i - 1]);
                }
            }
        }
    }
}

fn member_health(config: &AppConfigStore, r: &ProcessRecord, live: &[u32], healthy: &[u64], heads: &[(u64, String)])
    -> (s: PrHealthStatus)
    ensures
        s == member_status(*config, *r, live@, healthy@, heads@),
{
    let cfg = if r.app_config_names.len() > 0 {
        config.load_app_config(r.app_config_names[0].as_str())
    } else {
        None
    };
    let alive = record_alive(r, live);
    let (pid_alive, service_healthy) = match cfg {
        Some(c) => (
            !c.ephemeral && alive,
            if c.health_check.is_some() { Some(contains_pr(healthy, r.pr)) } else { None },
        ),
        None => (alive, None),
    };
    let branch_ok = if r.expected_branch.as_str().is_empty() {
        None
    } else {
        match find_head(heads, r.pr) {
            Some(h) => Some(str_eq(h.as_str(), r.expected_branch.as_str())),
            None => None,
        }
    };
    PrHealthStatus { pr: r.pr, pid_alive, service_healthy, branch_ok }
}

fn insert_by_pr(v: &mut Vec<PrHealthStatus>, s: PrHealthStatus)
    requires
        sorted_by_pr(old(v)@),
        forall|k: int| 0 <= k < old(v)@.len() ==> (#[trigger] old(v)@[k]).pr != s.pr,
    ensures
        sorted_by_pr(final(v)@),
        forall|x: PrHealthStatus| final(v)@.contains(x) <==> (old(v)@.contains(x) || x == s),
{
    let ghost v0 = v@;
    let mut i: usize = 0;
    while i < v.len() && v[i].pr < s.pr
        invariant
            v@ == v0,
            i <= v@.len(),
            forall|k: int| 0 <= k < i ==> (#[trigger] v@[k]).pr < s.pr,
        decreases v@.len() - i,
    {
        i += 1;
    }
    v.insert(i, s);
    proof {
        let n = v@;
        assert(n == v0.insert(i as int, s));
        assert forall|k: int| i < k < n.len() implies (#[trigger] n[k]).pr > s.pr by {
            assert(n[k] == v0[k - 1]);
            assert(v0[i as int].pr >= s.pr);
            assert(v0[i as int].pr != s.pr);
            if k - 1 > i {
                assert(v0[i as int].pr < v0[k - 1].pr);
            }
        }
        assert forall|p: int, q: int| 0 <= p < q < n.len() implies (#[trigger] n[p]).pr < (#[trigger] n[q]).pr by {
            if q < i {
                assert(n[p] == v0[p] && n[q] == v0[q]);
            } else if q == i {
                assert(n[p] == v0[p]);
            } else if p == i {
            } else if p < i {
                assert(n[p] == v0[p] && n[q] == v0[q - 1]);
            } else {
                assert(n[p] == v0[p - 1] && n[q] == v0[q - 1]);
            }
        }
        assert forall|x: PrHealthStatus| n.contains(x) <==> (v0.contains(x) || x == s) by {
            if n.contains(x) {
                let k = choose|k: int| 0 <= k < n.len() && n[k] == x;
                if k < i {
                    assert(v0[k] == x);
                } else if k > i {
                    assert(v0[k - 1] == x);
                }
            }
            if v0.contains(x) {
                let k = choose|k: int| 0 <= k < v0.len() && v0[k] == x;
                if k < i {
                    assert(n[k] == x);
                } else {
                    assert(n[k + 1] == x);
                }
            }
            if x == s {
                assert(n[i as int] == s);
            }
        }
    }
}

/// The health of each member of envelope `name`, in order of pull request.
/// What only the system can tell comes as arguments: the live process ids
/// (`live`), the pull requests whose health check passed (`healthy`), and the
/// HEAD read in each member's worktree where it exists (`heads`).
pub fn feature_status(state: &ProcessState, config: &AppConfigStore, name: &str, live: &[u32], healthy: &[u64],
    heads: &[(u64, String)]) -> (r: Vec<PrHealthStatus>)
    ensures
        r@ == member_statuses(*config, state.records_view(), name@, live@, healthy@, heads@),
        sorted_by_pr(r@),
        forall|x: PrHealthStatus| r@.contains(x)
            <==> is_member_status(*config, state.records_view(), name@, live@, healthy@, heads@, x),
        forall|i: int| 0 <= i < state.records_view().len() && in_envelope(#[trigger] state.records_view()[i], name@)
            ==> exists|j: int| 0 <= j < r@.len()
                && r@[j] == member_status(*config, state.records_view()[i], live@, healthy@, heads@)
                && forall|k: int| 0 <= k < r@.len() && (#[trigger] r@[k]).pr == state.records_view()[i].pr ==> k == j,
        forall|j: int| 0 <= j < r@.len() ==> exists|i: int| 0 <= i < state.records_view().len()
            && in_envelope(#[trigger] state.records_view()[i], name@)
            && (#[trigger] r@[j]) == member_status(*config, state.records_view()[i], live@, healthy@, heads@),
{
    let rs = state.records();
    let mut out: Vec<PrHealthStatus> = Vec::new();
    let mut i: usize = 0;
    while i < rs.len()
        invariant
            i <= rs@.len(),
            rs@ == state.records_view(),
            distinct_prs(rs@),
            sorted_by_pr(out@),
            forall|x: PrHealthStatus| out@.contains(x) <==> exists|j: int| 0 <= j < i
                && in_envelope(#[trigger] rs@[j], name@) && x == member_status(*config, rs@[j], live@, healthy@, heads@),
        decreases rs@.len() - i,
    {
        if record_in(&rs[i], name) {
            let s = member_health(config, &rs[i], live, healthy, heads);
            proof {
                assert forall|k: int| 0 <= k < out@.len() implies (#[trigger] out@[k]).pr != s.pr by {
                    assert(out@.contains(out@[k]));
                    let j = choose|j: int| 0 <= j < i && in_envelope(#[trigger] rs@[j], name@)
                        && out@[k] == member_status(*config, rs@[j], live@, healthy@, heads@);
                    assert(rs@[j].pr != rs@[i as int].pr);
                }
            }
            let ghost o0 = out@;
            insert_by_pr(&mut out, s);
            proof {
                assert forall|x: PrHealthStatus| out@.contains(x) <==> exists|j: int| 0 <= j < i + 1
                    && in_envelope(#[trigger] rs@[j], name@) && x == member_status(*config, rs@[j], live@, healthy@, heads@) by {
                    if exists|j: int| 0 <= j < i + 1 && in_envelope(#[trigger] rs@[j], name@)
                        && x == member_status(*config, rs@[j], live@, healthy@, heads@) {
                        let j = choose|j: int| 0 <= j < i + 1 && in_envelope(#[trigger] rs@[j], name@)
                            && x == member_status(*config, rs@[j], live@, healthy@, heads@);
                        if j < i {
                            assert(o0.contains(x));
                        }
                    }
                }
            }
        }
        i += 1;
    }
    proof {
        let pred = |v: Seq<PrHealthStatus>| sorted_by_pr(v)
            && forall|x: PrHealthStatus| v.contains(x) <==> is_member_status(*config, rs@, name@, live@, healthy@, heads@, x);
        assert(pred(out@));
        let c = member_statuses(*config, rs@, name@, live@, healthy@, heads@);
        assert(pred(c));
        lemma_sorted_by_pr_unique(c, out@);
        assert forall|j: int| 0 <= j < out@.len() implies exists|i: int| 0 <= i < rs@.len()
            && in_envelope(#[trigger] rs@[i], name@)
            && (#[trigger] out@[j]) == member_status(*config, rs@[i], live@, healthy@, heads@) by {
            assert(out@.contains(out@[j]));
        }
        assert forall|i: int| 0 <= i < rs@.len() && in_envelope(#[trigger] rs@[i], name@)
            implies exists|j: int| 0 <= j < out@.len()
                && out@[j] == member_status(*config, rs@[i], live@, healthy@, heads@)
                && forall|k: int| 0 <= k < out@.len() && (#[trigger] out@[k]).pr == rs@[i].pr ==> k == j by {
            let x = member_status(*config, rs@[i], live@, healthy@, heads@);
            assert(is_member_status(*config, rs@, name@, live@, healthy@, heads@, x));
            assert(out@.contains(x));
            let j = choose|j: int| 0 <= j < out@.len() && out@[j] == x;
            assert forall|k: int| 0 <= k < out@.len() && (#[trigger] out@[k]).pr == rs@[i].pr implies k == j by {
                if k < j {
                    assert(out@[k].pr < out@[j].pr);
                } else if k > j {
                    assert(out@[j].pr < out@[k].pr);
                }
            }
        }
    }
    out
}

/// The envelope list holds one entry per envelope, in strictly increasing order
/// of name, each with exactly the pull requests of the records that belong to
/// it.
pub proof fn law_feature_list_exact(state: ProcessState, v: Seq<FeatureInfo>)
    requires
        infos_view(v) == state.envelopes().map_values(|n: Seq<char>| described(state.records_view(), n)),
        sorted_strict(state.envelopes()),
        forall|n: Seq<char>| state.has_envelope(n) <==> state.envelopes().contains(n),
    ensures
        forall|i: int, j: int| 0 <= i < j < v.len() ==> seq_lt((#[trigger] v[i]).name@, (#[trigger] v[j]).name@),
        forall|n: Seq<char>| state.has_envelope(n) <==> exists|i: int| 0 <= i < v.len() && (#[trigger] v[i]).name@ == n,
        forall|i: int| 0 <= i < v.len() ==> (#[trigger] v[i]).prs@ == member_prs(state.records_view(), v[i].name@),
        forall|i: int, k: int| 0 <= i < v.len() && 0 <= k < state.records_view().len()
            && in_envelope(#[trigger] state.records_view()[k], v[i].name@) ==> (#[trigger] v[i]).prs@.contains(state.records_view()[k].pr),
{
    let es = state.envelopes();
    let rs = state.records_view();
    assert(v.len() == es.len()) by {
        assert(infos_view(v).len() == v.len());
    }
    assert forall|i: int| 0 <= i < v.len() implies (#[trigger] v[i]).name@ == es[i]
        && v[i].prs@ == member_prs(rs, es[i]) by {
        assert(infos_view(v)[i] == info_view(v[i]));
    }
    assert forall|n: Seq<char>| state.has_envelope(n) <==> exists|i: int| 0 <= i < v.len() && (#[trigger] v[i]).name@ == n by {
        if state.has_envelope(n) {
            let j = choose|j: int| 0 <= j < es.len() && es[j] == n;
            assert(v[j].name@ == n);
        }
        if exists|i: int| 0 <= i < v.len() && (#[trigger] v[i]).name@ == n {
            let i = choose|i: int| 0 <= i < v.len() && (#[trigger] v[i]).name@ == n;
            assert(es[i] == n);
            assert(es.contains(n));
        }
    }
    assert forall|i: int, k: int| 0 <= i < v.len() && 0 <= k < rs.len()
        && in_envelope(#[trigger] rs[k], v[i].name@) implies (#[trigger] v[i]).prs@.contains(rs[k].pr) by {
        law_members_listed(rs, v[i].name@);
    }
}

} // verus!
