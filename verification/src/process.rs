//! The local process state: which pull requests run services (and under which
//! process), how they are grouped into feature envelopes, and the envelopes'
//! shared dependencies and test commands.
use vstd::prelude::*;
use crate::keyed::{keyed, entry, pkey, keys, upsert, remove_entry, find_entry, has_entry, lemma_filter_take, lookup, lemma_lookup_found};
use crate::model::{clone_opt, opt_view};
use crate::text::{str_eq, copy_str, sviews, chars_of, matches_at, match_at, find_char, idx_of, lemma_idx_of_facts, string_of_range, sorted_strict};

verus! {

#[derive(Debug)]
pub struct ProcessRecord {
    pub pr: u64,
    pub expected_branch: String,
    pub pid: Option<u32>,
    pub feature_envelope: Option<String>,
    pub worktree: String,
    pub app_config_names: Vec<String>,
}

#[derive(Debug)]
pub struct DepRecord {
    pub app_config_name: String,
    pub feature_envelope: String,
    pub pid: Option<u32>,
    pub worktree: String,
}

/// The envelope a record belongs to, as text.
pub open spec fn envelope_of(r: ProcessRecord) -> Option<Seq<char>> {
    opt_view(r.feature_envelope)
}

/// Whether a record runs a process that is alive (its pid is among `live`).
pub open spec fn is_alive(r: ProcessRecord, live: Seq<u32>) -> bool {
    match r.pid {
        Some(p) => live.contains(p),
        None => false,
    }
}

pub open spec fn distinct_prs(rs: Seq<ProcessRecord>) -> bool {
    forall|i: int, j: int| 0 <= i < j < rs.len() ==> (#[trigger] rs[i]).pr != (#[trigger] rs[j]).pr
}

/// Whether record `r` belongs to the envelope `name`.
pub open spec fn in_envelope(r: ProcessRecord, name: Seq<char>) -> bool {
    envelope_of(r) == Some(name)
}

/// The records of the envelope `name`, in record order.
pub open spec fn members(rs: Seq<ProcessRecord>, name: Seq<char>) -> Seq<ProcessRecord> {
    rs.filter(|r: ProcessRecord| in_envelope(r, name))
}

/// The pull requests of the envelope `name`, in record order.
pub open spec fn member_prs(rs: Seq<ProcessRecord>, name: Seq<char>) -> Seq<u64> {
    members(rs, name).map_values(|r: ProcessRecord| r.pr)
}

/// The record of pull request `pr`, if there is one.
pub open spec fn record_of(rs: Seq<ProcessRecord>, pr: u64) -> Option<ProcessRecord> {
    if exists|i: int| 0 <= i < rs.len() && (#[trigger] rs[i]).pr == pr {
        Some(rs[choose|i: int| 0 <= i < rs.len() && (#[trigger] rs[i]).pr == pr])
    } else {
        None
    }
}

pub proof fn lemma_record_of(rs: Seq<ProcessRecord>, pr: u64, i: int)
    requires
        distinct_prs(rs),
        0 <= i < rs.len(),
        rs[i].pr == pr,
    ensures
        record_of(rs, pr) == Some(rs[i]),
{
    let k = choose|k: int| 0 <= k < rs.len() && (#[trigger] rs[k]).pr == pr;
    if k != i {
        if k < i {
            assert(rs[k].pr != rs[i].pr);
        } else {
            assert(rs[i].pr != rs[k].pr);
        }
    }
}

/// Record `r` with process `pid`, and with `worktree` where one is given.
pub open spec fn with_process(r: ProcessRecord, pid: Option<u32>, worktree: Option<String>) -> ProcessRecord {
    ProcessRecord {
        pr: r.pr,
        expected_branch: r.expected_branch,
        pid,
        feature_envelope: r.feature_envelope,
        worktree: match worktree {
            Some(w) => w,
            None => r.worktree,
        },
        app_config_names: r.app_config_names,
    }
}

/// Whether `r` belongs to the envelope `name`.
pub fn record_in(r: &ProcessRecord, name: &str) -> (b: bool)
    ensures
        b == in_envelope(*r, name@),
{
    match &r.feature_envelope {
        Some(e) => str_eq(e.as_str(), name),
        None => false,
    }
}

/// Where the record of `pr` stands among `rs`.
pub fn find_record(rs: &Vec<ProcessRecord>, pr: u64) -> (r: Option<usize>)
    ensures
        match r {
            Some(i) => i < rs@.len() && rs@[i as int].pr == pr,
            None => forall|j: int| 0 <= j < rs@.len() ==> (#[trigger] rs@[j]).pr != pr,
        },
{
    let mut i: usize = 0;
    while i < rs.len()
        invariant
            i <= rs@.len(),
            forall|j: int| 0 <= j < i ==> (#[trigger] rs@[j]).pr != pr,
        decreases rs@.len() - i,
    {
        if rs[i].pr == pr {
            return Some(i);
        }
        i += 1;
    }
    None
}

/// The pull requests of the envelope `name`.
pub fn prs_in(rs: &Vec<ProcessRecord>, name: &str) -> (r: Vec<u64>)
    ensures
        r@ == member_prs(rs@, name@),
{
    let ghost pred = |x: ProcessRecord| in_envelope(x, name@);
    let mut out: Vec<u64> = Vec::new();
    let mut i: usize = 0;
    while i < rs.len()
        invariant
            i <= rs@.len(),
            pred == (|x: ProcessRecord| in_envelope(x, name@)),
            out@ == rs@.take(i as int).filter(pred).map_values(|x: ProcessRecord| x.pr),
        decreases rs@.len() - i,
    {
        let ghost before = rs@.take(i as int).filter(pred);
        proof { lemma_filter_take(rs@, pred, i as int); }
        if record_in(&rs[i], name) {
            out.push(rs[i].pr);
            assert(before.push(rs@[i as int]).map_values(|x: ProcessRecord| x.pr)
                =~= before.map_values(|x: ProcessRecord| x.pr).push(rs@[i as int].pr));
        }
        i += 1;
    }
    assert(rs@.take(rs@.len() as int) =~= rs@);
    out
}

/// How many records belong to the envelope `name`.
pub fn member_count(rs: &Vec<ProcessRecord>, name: &str) -> (n: usize)
    ensures
        n == members(rs@, name@).len(),
{
    let ghost pred = |x: ProcessRecord| in_envelope(x, name@);
    let mut n: usize = 0;
    let mut i: usize = 0;
    while i < rs.len()
        invariant
            i <= rs@.len(),
            pred == (|x: ProcessRecord| in_envelope(x, name@)),
            n == rs@.take(i as int).filter(pred).len(),
            n <= i,
        decreases rs@.len() - i,
    {
        proof { lemma_filter_take(rs@, pred, i as int); }
        if record_in(&rs[i], name) {
            n += 1;
        }
        i += 1;
    }
    assert(rs@.take(rs@.len() as int) =~= rs@);
    n
}

pub struct ProcessState {
    records: Vec<ProcessRecord>,
    feature_envelopes: Vec<(String, ())>,
    dep_records: Vec<(String, DepRecord)>,
    envelope_deps: Vec<(String, Vec<String>)>,
    feature_configs: Vec<(String, Option<String>)>,
}

impl ProcessState {
    #[verifier::type_invariant]
    spec fn inv(&self) -> bool {
        &&& distinct_prs(self.records@)
        &&& keyed(self.feature_envelopes@)
        &&& keyed(self.dep_records@)
        &&& keyed(self.envelope_deps@)
        &&& keyed(self.feature_configs@)
    }

    /// The records, one per pull request.
    pub closed spec fn records_view(&self) -> Seq<ProcessRecord> {
        self.records@
    }

    /// The feature envelopes, in order of name.
    pub closed spec fn envelopes(&self) -> Seq<Seq<char>> {
        keys(self.feature_envelopes@, |e: (String, ())| pkey(e))
    }

    pub closed spec fn has_envelope(&self, name: Seq<char>) -> bool {
        entry(self.feature_envelopes@, name) is Some
    }

    pub closed spec fn dep_record(&self, key: Seq<char>) -> Option<DepRecord> {
        match entry(self.dep_records@, key) {
            Some(e) => Some(e.1),
            None => None,
        }
    }

    /// The instances of shared dependencies, in order of key.
    pub closed spec fn dep_entries(&self) -> Seq<(String, DepRecord)> {
        self.dep_records@
    }

    /// The app configurations an envelope shares among its members.
    pub closed spec fn deps_of(&self, envelope: Seq<char>) -> Option<Seq<Seq<char>>> {
        match entry(self.envelope_deps@, envelope) {
            Some(e) => Some(e.1@.map_values(|s: String| s@)),
            None => None,
        }
    }

    /// The test command of an envelope: `Some(None)` when it has a configuration
    /// without one.
    pub closed spec fn test_config(&self, envelope: Seq<char>) -> Option<Option<Seq<char>>> {
        match entry(self.feature_configs@, envelope) {
            Some(e) => Some(opt_view(e.1)),
            None => None,
        }
    }

    pub fn new() -> (r: Self)
        ensures
            r.records_view().len() == 0,
            r.envelopes().len() == 0,
            forall|n: Seq<char>| !r.has_envelope(n),
            forall|k: Seq<char>| r.dep_record(k) is None,
            r.dep_entries().len() == 0,
            forall|k: Seq<char>| r.deps_of(k) is None,
            forall|k: Seq<char>| r.test_config(k) is None,
    {
        let r = ProcessState {
            records: Vec::new(),
            feature_envelopes: Vec::new(),
            dep_records: Vec::new(),
            envelope_deps: Vec::new(),
            feature_configs: Vec::new(),
        };
        assert(keys(r.feature_envelopes@, |e: (String, ())| pkey(e)) =~= Seq::<Seq<char>>::empty());
        r
    }

    pub fn records(&self) -> (r: &Vec<ProcessRecord>)
        ensures
            r@ == self.records_view(),
            distinct_prs(r@),
    {
        proof { use_type_invariant(self); }
        &self.records
    }

    pub fn envelope_names(&self) -> (r: Vec<String>)
        ensures
            r@.map_values(|s: String| s@) == self.envelopes(),
            sorted_strict(self.envelopes()),
            forall|n: Seq<char>| self.has_envelope(n) <==> self.envelopes().contains(n),
    {
        proof {
            use_type_invariant(self);
            let key = |e: (String, ())| pkey(e);
            assert forall|n: Seq<char>| self.has_envelope(n) <==> self.envelopes().contains(n) by {
                lemma_lookup_found(self.feature_envelopes@, key, n);
                if self.has_envelope(n) {
                    let j = choose|j: int| 0 <= j < self.feature_envelopes@.len()
                        && self.feature_envelopes@[j] == lookup(self.feature_envelopes@, key, n)->0
                        && key(#[trigger] self.feature_envelopes@[j]) == n;
                    assert(self.envelopes()[j] == n);
                }
                if self.envelopes().contains(n) {
                    let j = choose|j: int| 0 <= j < self.envelopes().len() && self.envelopes()[j] == n;
                    assert(key(self.feature_envelopes@[j]) == n);
                }
            }
        }
        let mut r: Vec<String> = Vec::new();
        let mut i: usize = 0;
        while i < self.feature_envelopes.len()
            invariant
                i <= self.feature_envelopes@.len(),
                r@.map_values(|s: String| s@) == keys(self.feature_envelopes@, |e: (String, ())| pkey(e)).take(i as int),
            decreases self.feature_envelopes@.len() - i,
        {
            let ghost before = r@.map_values(|s: String| s@);
            r.push(self.feature_envelopes[i].0.clone());
            assert(r@.map_values(|s: String| s@) =~= before.push(self.feature_envelopes@[i as int].0@));
            assert(keys(self.feature_envelopes@, |e: (String, ())| pkey(e)).take(i + 1)
                =~= keys(self.feature_envelopes@, |e: (String, ())| pkey(e)).take(i as int).push(self.feature_envelopes@[i as int].0@));
            i += 1;
        }
        assert(keys(self.feature_envelopes@, |e: (String, ())| pkey(e)).take(self.feature_envelopes@.len() as int)
            =~= keys(self.feature_envelopes@, |e: (String, ())| pkey(e)));
        r
    }

    pub fn dep_records(&self) -> (r: &Vec<(String, DepRecord)>)
        ensures
            r@ == self.dep_entries(),
            forall|j: int| 0 <= j < r@.len() ==> self.dep_record((#[trigger] r@[j]).0@) == Some(r@[j].1),
    {
        proof {
            use_type_invariant(self);
            let key = |e: (String, DepRecord)| pkey(e);
            assert forall|j: int| 0 <= j < self.dep_records@.len() implies self.dep_record((#[trigger] self.dep_records@[j]).0@) == Some(self.dep_records@[j].1) by {
                crate::keyed::lemma_sorted_unique(self.dep_records@, key, j);
                crate::keyed::lemma_lookup_at(self.dep_records@, key, j);
            }
        }
        &self.dep_records
    }

    pub fn envelope_deps(&self) -> (r: &Vec<(String, Vec<String>)>)
        ensures
            forall|j: int| 0 <= j < r@.len() ==> self.deps_of((#[trigger] r@[j]).0@) == Some(r@[j].1@.map_values(|s: String| s@)),
    {
        proof {
            use_type_invariant(self);
            let key = |e: (String, Vec<String>)| pkey(e);
            assert forall|j: int| 0 <= j < self.envelope_deps@.len() implies self.deps_of((#[trigger] self.envelope_deps@[j]).0@) == Some(self.envelope_deps@[j].1@.map_values(|s: String| s@)) by {
                crate::keyed::lemma_sorted_unique(self.envelope_deps@, key, j);
                crate::keyed::lemma_lookup_at(self.envelope_deps@, key, j);
            }
        }
        &self.envelope_deps
    }

    pub fn feature_configs(&self) -> (r: &Vec<(String, Option<String>)>)
        ensures
            forall|j: int| 0 <= j < r@.len() ==> self.test_config((#[trigger] r@[j]).0@) == Some(opt_view(r@[j].1)),
    {
        proof {
            use_type_invariant(self);
            let key = |e: (String, Option<String>)| pkey(e);
            assert forall|j: int| 0 <= j < self.feature_configs@.len() implies self.test_config((#[trigger] self.feature_configs@[j]).0@) == Some(opt_view(self.feature_configs@[j].1)) by {
                crate::keyed::lemma_sorted_unique(self.feature_configs@, key, j);
                crate::keyed::lemma_lookup_at(self.feature_configs@, key, j);
            }
        }
        &self.feature_configs
    }

    /// The test command of the envelope `name`, where it has one.
    pub fn test_command(&self, name: &str) -> (r: Option<String>)
        ensures
            match r {
                Some(c) => self.test_config(name@) == Some(Some(c@)),
                None => !(self.test_config(name@) matches Some(Some(_))),
            },
    {
        proof { use_type_invariant(self); }
        match find_entry(&self.feature_configs, name) {
            Some(i) => clone_opt(&self.feature_configs[i].1),
            None => None,
        }
    }

    /// Whether the envelope `name` exists.
    pub fn contains_envelope(&self, name: &str) -> (r: bool)
        ensures
            r == self.has_envelope(name@),
    {
        proof { use_type_invariant(self); }
        has_entry(&self.feature_envelopes, name)
    }

    /// Add the envelope `name` (no change when it exists).
    pub fn insert_envelope(&mut self, name: &str)
        ensures
            final(self).has_envelope(name@),
            forall|n: Seq<char>| n != name@ ==> final(self).has_envelope(n) == old(self).has_envelope(n),
            final(self).records_view() == old(self).records_view(),
            forall|k: Seq<char>| final(self).dep_record(k) == old(self).dep_record(k),
            final(self).dep_entries() == old(self).dep_entries(),
            forall|k: Seq<char>| final(self).deps_of(k) == old(self).deps_of(k),
            forall|k: Seq<char>| final(self).test_config(k) == old(self).test_config(k),
    {
        proof { use_type_invariant(&*self); }
        let mut v: Vec<(String, ())> = Vec::new();
        std::mem::swap(&mut v, &mut self.feature_envelopes);
        upsert(&mut v, copy_str(name), ());
        std::mem::swap(&mut v, &mut self.feature_envelopes);
    }

    /// Drop the envelope `name`.
    pub fn remove_envelope(&mut self, name: &str)
        ensures
            !final(self).has_envelope(name@),
            forall|n: Seq<char>| n != name@ ==> final(self).has_envelope(n) == old(self).has_envelope(n),
            final(self).records_view() == old(self).records_view(),
            forall|k: Seq<char>| final(self).dep_record(k) == old(self).dep_record(k),
            final(self).dep_entries() == old(self).dep_entries(),
            forall|k: Seq<char>| final(self).deps_of(k) == old(self).deps_of(k),
            forall|k: Seq<char>| final(self).test_config(k) == old(self).test_config(k),
    {
        proof { use_type_invariant(&*self); }
        let mut v: Vec<(String, ())> = Vec::new();
        std::mem::swap(&mut v, &mut self.feature_envelopes);
        remove_entry(&mut v, name);
        std::mem::swap(&mut v, &mut self.feature_envelopes);
    }

    /// Set the record of pull request `rec.pr`, replacing any earlier one.
    pub fn put_record(&mut self, rec: ProcessRecord)
        ensures
            exists|i: int| 0 <= i < final(self).records_view().len() && final(self).records_view()[i] == rec,
            forall|r: ProcessRecord| old(self).records_view().contains(r) && r.pr != rec.pr ==> final(self).records_view().contains(r),
            forall|r: ProcessRecord| final(self).records_view().contains(r) ==> r == rec || (old(self).records_view().contains(r) && r.pr != rec.pr),
            forall|n: Seq<char>| final(self).has_envelope(n) == old(self).has_envelope(n),
            forall|k: Seq<char>| final(self).dep_record(k) == old(self).dep_record(k),
            final(self).dep_entries() == old(self).dep_entries(),
            forall|k: Seq<char>| final(self).deps_of(k) == old(self).deps_of(k),
            forall|k: Seq<char>| final(self).test_config(k) == old(self).test_config(k),
    {
        proof { use_type_invariant(&*self); }
        let ghost v0 = self.records@;
        let ghost c = rec;
        let ghost mut idx: int = 0;
        let mut v: Vec<ProcessRecord> = Vec::new();
        std::mem::swap(&mut v, &mut self.records);
        let mut i: usize = 0;
        while i < v.len() && v[i].pr != rec.pr
            invariant
                v@ == v0,
                i <= v@.len(),
                forall|j: int| 0 <= j < i ==> v@[j].pr != rec.pr,
            decreases v@.len() - i,
        {
            i += 1;
        }
        if i < v.len() {
            v.set(i, rec);
            proof {
                idx = i as int;
                let n = v@;
                assert(n == v0.update(i as int, c));
                assert forall|p: int, q: int| 0 <= p < q < n.len() implies (#[trigger] n[p]).pr != (#[trigger] n[q]).pr by {
                    assert(v0[p].pr != v0[q].pr || (p != i && q != i) == false);
                }
                assert(n[i as int] == c);
                assert forall|r: ProcessRecord| v0.contains(r) && r.pr != c.pr implies n.contains(r) by {
                    let k = choose|k: int| 0 <= k < v0.len() && v0[k] == r;
                    assert(k != i);
                    assert(n[k] == r);
                }
                assert forall|r: ProcessRecord| n.contains(r) implies r == c || (v0.contains(r) && r.pr != c.pr) by {
                    let k = choose|k: int| 0 <= k < n.len() && n[k] == r;
                    if k != i {
                        assert(v0[k] == r);
                        assert(v0[k].pr != v0[i as int].pr);
                    }
                }
            }
        } else {
            v.push(rec);
            proof {
                idx = v0.len() as int;
                let n = v@;
                assert(n == v0.push(c));
                assert(n[v0.len() as int] == c);
                assert forall|r: ProcessRecord| v0.contains(r) && r.pr != c.pr implies n.contains(r) by {
                    let k = choose|k: int| 0 <= k < v0.len() && v0[k] == r;
                    assert(n[k] == r);
                }
                assert forall|r: ProcessRecord| n.contains(r) implies r == c || (v0.contains(r) && r.pr != c.pr) by {
                    let k = choose|k: int| 0 <= k < n.len() && n[k] == r;
                    if k < v0.len() {
                        assert(v0[k] == r);
                    }
                }
            }
        }
        std::mem::swap(&mut v, &mut self.records);
        assert(0 <= idx < self.records_view().len() && self.records_view()[idx] == c);
    }

    /// The record of pull request `pr`.
    pub fn record(&self, pr: u64) -> (r: Option<&ProcessRecord>)
        ensures
            match r {
                Some(x) => record_of(self.records_view(), pr) == Some(*x),
                None => record_of(self.records_view(), pr) is None,
            },
    {
        proof { use_type_invariant(self); }
        match find_record(&self.records, pr) {
            Some(i) => {
                proof { lemma_record_of(self.records@, pr, i as int); }
                Some(&self.records[i])
            },
            None => None,
        }
    }

    /// Set, in place, the process of the record of `pr` (and its worktree, where
    /// one is given); whether there is such a record.
    pub fn set_process(&mut self, pr: u64, pid: Option<u32>, worktree: Option<String>) -> (found: bool)
        ensures
            found == (record_of(old(self).records_view(), pr) is Some),
            final(self).records_view().len() == old(self).records_view().len(),
            forall|i: int| 0 <= i < old(self).records_view().len() ==> (#[trigger] final(self).records_view()[i]) == if old(self).records_view()[i].pr == pr {
                with_process(old(self).records_view()[i], pid, worktree)
            } else {
                old(self).records_view()[i]
            },
            forall|n: Seq<char>| final(self).has_envelope(n) == old(self).has_envelope(n),
            final(self).envelopes() == old(self).envelopes(),
            final(self).dep_entries() == old(self).dep_entries(),
            forall|k: Seq<char>| final(self).dep_record(k) == old(self).dep_record(k),
            final(self).dep_entries() == old(self).dep_entries(),
            forall|k: Seq<char>| final(self).deps_of(k) == old(self).deps_of(k),
            forall|k: Seq<char>| final(self).test_config(k) == old(self).test_config(k),
    {
        proof { use_type_invariant(&*self); }
        let ghost v0 = self.records@;
        match find_record(&self.records, pr) {
            None => {
                proof {
                    if record_of(v0, pr) is Some {
                        let k = choose|k: int| 0 <= k < v0.len() && (#[trigger] v0[k]).pr == pr;
                        assert(v0[k].pr != pr);
                    }
                }
                false
            },
            Some(i) => {
                let mut v: Vec<ProcessRecord> = Vec::new();
                std::mem::swap(&mut v, &mut self.records);
                let mut rec = v.remove(i);
                rec.pid = pid;
                match worktree {
                    Some(w) => { rec.worktree = w; },
                    None => {},
                }
                v.insert(i, rec);
                proof {
                    let n = v@;
                    assert(n =~= v0.update(i as int, with_process(v0[i as int], pid, worktree)));
                    assert forall|j: int| 0 <= j < v0.len() && j != i implies v0[j].pr != pr by {
                        if j < i {
                            assert(v0[j].pr != v0[i as int].pr);
                        } else {
                            assert(v0[i as int].pr != v0[j].pr);
                        }
                    }
                    assert forall|p: int, q: int| 0 <= p < q < n.len() implies (#[trigger] n[p]).pr != (#[trigger] n[q]).pr by {
                        assert(n[p].pr == v0[p].pr && n[q].pr == v0[q].pr);
                    }
                    assert(v0[i as int].pr == pr);
                }
                std::mem::swap(&mut v, &mut self.records);
                true
            },
        }
    }

    /// Record that the services of `pr` run as process `pid` from `worktree`. A
    /// pull request without a record gets one of its own, in no envelope, with no
    /// expected branch and no app configuration.
    pub fn mark_started(&mut self, pr: u64, pid: u32, worktree: &str)
        ensures
            record_of(final(self).records_view(), pr) matches Some(x) && x.pr == pr && x.pid == Some(pid)
                && x.worktree@ == worktree@ && match record_of(old(self).records_view(), pr) {
                    Some(r) => x.expected_branch == r.expected_branch && x.feature_envelope == r.feature_envelope
                        && x.app_config_names == r.app_config_names,
                    None => x.expected_branch@.len() == 0 && x.feature_envelope is None && x.app_config_names@.len() == 0,
                },
            forall|p: u64| p != pr ==> record_of(final(self).records_view(), p) == record_of(old(self).records_view(), p),
            forall|n: Seq<char>| final(self).has_envelope(n) == old(self).has_envelope(n),
            forall|k: Seq<char>| final(self).dep_record(k) == old(self).dep_record(k),
            final(self).dep_entries() == old(self).dep_entries(),
            forall|k: Seq<char>| final(self).deps_of(k) == old(self).deps_of(k),
            forall|k: Seq<char>| final(self).test_config(k) == old(self).test_config(k),
    {
        proof { use_type_invariant(&*self); }
        let ghost v0 = self.records@;
        let found = self.set_process(pr, Some(pid), Some(copy_str(worktree)));
        if found {
            proof {
                use_type_invariant(&*self);
                let v1 = self.records@;
                let i = choose|i: int| 0 <= i < v0.len() && (#[trigger] v0[i]).pr == pr;
                assert(v1[i].pr == pr);
                lemma_record_of(v1, pr, i);
                lemma_record_of(v0, pr, i);
                assert forall|p: u64| p != pr implies record_of(v1, p) == record_of(v0, p) by {
                    if exists|j: int| 0 <= j < v0.len() && (#[trigger] v0[j]).pr == p {
                        let j = choose|j: int| 0 <= j < v0.len() && (#[trigger] v0[j]).pr == p;
                        assert(v1[j] == v0[j]);
                        lemma_record_of(v0, p, j);
                        lemma_record_of(v1, p, j);
                    } else if exists|j: int| 0 <= j < v1.len() && (#[trigger] v1[j]).pr == p {
                        let j = choose|j: int| 0 <= j < v1.len() && (#[trigger] v1[j]).pr == p;
                        assert(v0[j].pr == p);
                    }
                }
            }
        } else {
            proof {
                assert forall|j: int| 0 <= j < v0.len() implies v0[j].pr != pr by {
                    if v0[j].pr == pr {
                        assert(record_of(v0, pr) is Some);
                    }
                }
                assert(self.records@ =~= v0);
            }
            self.put_record(ProcessRecord {
                pr,
                expected_branch: String::new(),
                pid: Some(pid),
                feature_envelope: None,
                worktree: copy_str(worktree),
                app_config_names: Vec::new(),
            });
            proof {
                use_type_invariant(&*self);
                let v1 = self.records@;
                let i = choose|i: int| 0 <= i < v1.len() && v1[i].pr == pr && v1[i].pid == Some(pid);
                lemma_record_of(v1, pr, i);
                assert forall|p: u64| p != pr implies record_of(v1, p) == record_of(v0, p) by {
                    if exists|j: int| 0 <= j < v0.len() && (#[trigger] v0[j]).pr == p {
                        let j = choose|j: int| 0 <= j < v0.len() && (#[trigger] v0[j]).pr == p;
                        assert(v0.contains(v0[j]));
                        assert(v1.contains(v0[j]));
                        let k = choose|k: int| 0 <= k < v1.len() && v1[k] == v0[j];
                        lemma_record_of(v0, p, j);
                        lemma_record_of(v1, p, k);
                    } else if exists|j: int| 0 <= j < v1.len() && (#[trigger] v1[j]).pr == p {
                        let j = choose|j: int| 0 <= j < v1.len() && (#[trigger] v1[j]).pr == p;
                        assert(v1.contains(v1[j]));
                        let k = choose|k: int| 0 <= k < v0.len() && v0[k] == v1[j];
                        assert(v0[k].pr == p);
                    }
                }
            }
        }
    }

    /// Record that the services of `pr` no longer run.
    pub fn mark_stopped(&mut self, pr: u64)
        ensures
            final(self).records_view().len() == old(self).records_view().len(),
            forall|i: int| 0 <= i < old(self).records_view().len() ==> (#[trigger] final(self).records_view()[i]) == if old(self).records_view()[i].pr == pr {
                with_process(old(self).records_view()[i], None, None)
            } else {
                old(self).records_view()[i]
            },
            final(self).envelopes() == old(self).envelopes(),
            forall|n: Seq<char>| final(self).has_envelope(n) == old(self).has_envelope(n),
            final(self).dep_entries() == old(self).dep_entries(),
            forall|k: Seq<char>| final(self).dep_record(k) == old(self).dep_record(k),
            final(self).dep_entries() == old(self).dep_entries(),
            forall|k: Seq<char>| final(self).deps_of(k) == old(self).deps_of(k),
            forall|k: Seq<char>| final(self).test_config(k) == old(self).test_config(k),
    {
        self.set_process(pr, None, None);
    }

    /// Take out the record of pull request `pr`.
    pub fn remove_record(&mut self, pr: u64) -> (r: Option<ProcessRecord>)
        ensures
            r == record_of(old(self).records_view(), pr),
            record_of(final(self).records_view(), pr) is None,
            forall|x: ProcessRecord| final(self).records_view().contains(x) <==> (old(self).records_view().contains(x) && x.pr != pr),
            forall|n: Seq<char>| final(self).has_envelope(n) == old(self).has_envelope(n),
            forall|k: Seq<char>| final(self).dep_record(k) == old(self).dep_record(k),
            final(self).dep_entries() == old(self).dep_entries(),
            forall|k: Seq<char>| final(self).deps_of(k) == old(self).deps_of(k),
            forall|k: Seq<char>| final(self).test_config(k) == old(self).test_config(k),
    {
        proof { use_type_invariant(&*self); }
        let ghost v0 = self.records@;
        match find_record(&self.records, pr) {
            None => {
                proof {
                    assert forall|x: ProcessRecord| v0.contains(x) implies x.pr != pr by {
                        let k = choose|k: int| 0 <= k < v0.len() && v0[k] == x;
                        assert(v0[k].pr != pr);
                    }
                }
                None
            },
            Some(i) => {
                proof { lemma_record_of(v0, pr, i as int); }
                let mut v: Vec<ProcessRecord> = Vec::new();
                std::mem::swap(&mut v, &mut self.records);
                let rec = v.remove(i);
                proof {
                    let n = v@;
                    assert(n =~= v0.remove(i as int));
                    assert forall|p: int, q: int| 0 <= p < q < n.len() implies (#[trigger] n[p]).pr != (#[trigger] n[q]).pr by {
                        let pp = if p < i { p } else { p + 1 };
                        let qq = if q < i { q } else { q + 1 };
                        assert(n[p] == v0[pp] && n[q] == v0[qq]);
                    }
                    assert forall|j: int| 0 <= j < n.len() implies (#[trigger] n[j]).pr != pr by {
                        let jj = if j < i { j } else { j + 1 };
                        assert(n[j] == v0[jj]);
                    }
                    assert forall|x: ProcessRecord| n.contains(x) <==> (v0.contains(x) && x.pr != pr) by {
                        if n.contains(x) {
                            let j = choose|j: int| 0 <= j < n.len() && n[j] == x;
                            let jj = if j < i { j } else { j + 1 };
                            assert(v0[jj] == x);
                        }
                        if v0.contains(x) && x.pr != pr {
                            let j = choose|j: int| 0 <= j < v0.len() && v0[j] == x;
                            assert(j != i);
                            let jj = if j < i { j } else { j - 1 };
                            assert(n[jj] == x);
                        }
                    }
                }
                std::mem::swap(&mut v, &mut self.records);
                Some(rec)
            },
        }
    }

    /// Add `app_config_name` to the shared dependencies of `envelope`.
    pub fn add_dep(&mut self, envelope: &str, app_config_name: &str)
        ensures
            final(self).deps_of(envelope@) == Some(match old(self).deps_of(envelope@) {
                Some(d) => d,
                None => Seq::<Seq<char>>::empty(),
            }.push(app_config_name@)),
            forall|k: Seq<char>| k != envelope@ ==> final(self).deps_of(k) == old(self).deps_of(k),
            final(self).records_view() == old(self).records_view(),
            forall|n: Seq<char>| final(self).has_envelope(n) == old(self).has_envelope(n),
            forall|k: Seq<char>| final(self).dep_record(k) == old(self).dep_record(k),
            final(self).dep_entries() == old(self).dep_entries(),
            forall|k: Seq<char>| final(self).test_config(k) == old(self).test_config(k),
    {
        proof { use_type_invariant(&*self); }
        let mut deps: Vec<String> = Vec::new();
        match find_entry(&self.envelope_deps, envelope) {
            Some(i) => {
                deps = copy_strings(&self.envelope_deps[i].1);
            },
            None => {},
        }
        let ghost d0 = deps@.map_values(|s: String| s@);
        deps.push(copy_str(app_config_name));
        assert(deps@.map_values(|s: String| s@) =~= d0.push(app_config_name@));
        let mut v: Vec<(String, Vec<String>)> = Vec::new();
        std::mem::swap(&mut v, &mut self.envelope_deps);
        upsert(&mut v, copy_str(envelope), deps);
        std::mem::swap(&mut v, &mut self.envelope_deps);
    }

    /// Drop `app_config_name` from the shared dependencies of `envelope`.
    pub fn remove_dep(&mut self, envelope: &str, app_config_name: &str)
        ensures
            final(self).deps_of(envelope@) == match old(self).deps_of(envelope@) {
                Some(d) => Some(d.filter(|x: Seq<char>| x != app_config_name@)),
                None => None,
            },
            forall|k: Seq<char>| k != envelope@ ==> final(self).deps_of(k) == old(self).deps_of(k),
            final(self).records_view() == old(self).records_view(),
            forall|n: Seq<char>| final(self).has_envelope(n) == old(self).has_envelope(n),
            forall|k: Seq<char>| final(self).dep_record(k) == old(self).dep_record(k),
            final(self).dep_entries() == old(self).dep_entries(),
            forall|k: Seq<char>| final(self).test_config(k) == old(self).test_config(k),
    {
        proof { use_type_invariant(&*self); }
        match find_entry(&self.envelope_deps, envelope) {
            Some(i) => {
                let kept = strings_without(&self.envelope_deps[i].1, app_config_name);
                let mut v: Vec<(String, Vec<String>)> = Vec::new();
                std::mem::swap(&mut v, &mut self.envelope_deps);
                upsert(&mut v, copy_str(envelope), kept);
                std::mem::swap(&mut v, &mut self.envelope_deps);
            },
            None => {},
        }
    }

    /// Set the record of the shared dependency instance `key`.
    pub fn put_dep_record(&mut self, key: &str, rec: DepRecord)
        ensures
            final(self).dep_record(key@) == Some(rec),
            forall|k: Seq<char>| k != key@ ==> final(self).dep_record(k) == old(self).dep_record(k),
            final(self).records_view() == old(self).records_view(),
            forall|n: Seq<char>| final(self).has_envelope(n) == old(self).has_envelope(n),
            forall|k: Seq<char>| final(self).deps_of(k) == old(self).deps_of(k),
            forall|k: Seq<char>| final(self).test_config(k) == old(self).test_config(k),
    {
        proof { use_type_invariant(&*self); }
        let mut v: Vec<(String, DepRecord)> = Vec::new();
        std::mem::swap(&mut v, &mut self.dep_records);
        upsert(&mut v, copy_str(key), rec);
        std::mem::swap(&mut v, &mut self.dep_records);
    }

    /// Record that the shared dependency instance `key`, where it exists, now
    /// runs as process `pid`.
    pub fn set_dep_pid(&mut self, key: &str, pid: u32)
        ensures
            match old(self).dep_record(key@) {
                Some(d) => final(self).dep_record(key@) matches Some(e) && e.pid == Some(pid)
                    && e.app_config_name@ == d.app_config_name@ && e.feature_envelope@ == d.feature_envelope@
                    && e.worktree@ == d.worktree@,
                None => final(self).dep_record(key@) is None,
            },
            forall|k: Seq<char>| k != key@ ==> final(self).dep_record(k) == old(self).dep_record(k),
            final(self).records_view() == old(self).records_view(),
            forall|n: Seq<char>| final(self).has_envelope(n) == old(self).has_envelope(n),
            forall|k: Seq<char>| final(self).deps_of(k) == old(self).deps_of(k),
            forall|k: Seq<char>| final(self).test_config(k) == old(self).test_config(k),
    {
        proof { use_type_invariant(&*self); }
        match find_entry(&self.dep_records, key) {
            Some(i) => {
                let d = &self.dep_records[i].1;
                let rec = DepRecord {
                    app_config_name: copy_str(d.app_config_name.as_str()),
                    feature_envelope: copy_str(d.feature_envelope.as_str()),
                    pid: Some(pid),
                    worktree: copy_str(d.worktree.as_str()),
                };
                self.put_dep_record(key, rec);
            },
            None => {},
        }
    }

    /// The app configurations envelope `name` shares among its members.
    pub fn deps(&self, name: &str) -> (r: Vec<String>)
        ensures
            sviews(r@) == match self.deps_of(name@) {
                Some(d) => d,
                None => Seq::<Seq<char>>::empty(),
            },
    {
        proof { use_type_invariant(self); }
        match find_entry(&self.envelope_deps, name) {
            Some(i) => copy_strings(&self.envelope_deps[i].1),
            None => Vec::new(),
        }
    }

    /// Drop the record of the shared dependency instance `key`.
    pub fn remove_dep_record(&mut self, key: &str)
        ensures
            final(self).dep_record(key@) is None,
            forall|k: Seq<char>| k != key@ ==> final(self).dep_record(k) == old(self).dep_record(k),
            final(self).records_view() == old(self).records_view(),
            forall|n: Seq<char>| final(self).has_envelope(n) == old(self).has_envelope(n),
            forall|k: Seq<char>| final(self).deps_of(k) == old(self).deps_of(k),
            forall|k: Seq<char>| final(self).test_config(k) == old(self).test_config(k),
    {
        proof { use_type_invariant(&*self); }
        let mut v: Vec<(String, DepRecord)> = Vec::new();
        std::mem::swap(&mut v, &mut self.dep_records);
        remove_entry(&mut v, key);
        std::mem::swap(&mut v, &mut self.dep_records);
    }

    /// Set the test command of the envelope `name`.
    pub fn set_test_command(&mut self, name: &str, command: &str)
        ensures
            final(self).test_config(name@) == Some(Some(command@)),
            forall|k: Seq<char>| k != name@ ==> final(self).test_config(k) == old(self).test_config(k),
            final(self).records_view() == old(self).records_view(),
            forall|n: Seq<char>| final(self).has_envelope(n) == old(self).has_envelope(n),
            forall|k: Seq<char>| final(self).dep_record(k) == old(self).dep_record(k),
            final(self).dep_entries() == old(self).dep_entries(),
            forall|k: Seq<char>| final(self).deps_of(k) == old(self).deps_of(k),
    {
        proof { use_type_invariant(&*self); }
        let mut v: Vec<(String, Option<String>)> = Vec::new();
        std::mem::swap(&mut v, &mut self.feature_configs);
        upsert(&mut v, copy_str(name), Some(copy_str(command)));
        std::mem::swap(&mut v, &mut self.feature_configs);
    }
}

/// A copy of a list of strings.
pub fn copy_strings(v: &Vec<String>) -> (r: Vec<String>)
    ensures
        r@.map_values(|s: String| s@) == v@.map_values(|s: String| s@),
{
    let mut r: Vec<String> = Vec::new();
    let mut i: usize = 0;
    while i < v.len()
        invariant
            i <= v@.len(),
            r@.map_values(|s: String| s@) == v@.take(i as int).map_values(|s: String| s@),
        decreases v@.len() - i,
    {
        let ghost before = r@.map_values(|s: String| s@);
        r.push(copy_str(v[i].as_str()));
        assert(r@.map_values(|s: String| s@) =~= before.push(v@[i as int]@));
        assert(v@.take(i + 1).map_values(|s: String| s@) =~= v@.take(i as int).map_values(|s: String| s@).push(v@[i as int]@));
        i += 1;
    }
    assert(v@.take(v@.len() as int) =~= v@);
    r
}

/// The strings of `v` other than `x`, in order.
pub fn strings_without(v: &Vec<String>, x: &str) -> (r: Vec<String>)
    ensures
        r@.map_values(|s: String| s@) == v@.map_values(|s: String| s@).filter(|y: Seq<char>| y != x@),
{
    let ghost all = v@.map_values(|s: String| s@);
    let ghost pred = |y: Seq<char>| y != x@;
    let mut r: Vec<String> = Vec::new();
    let mut i: usize = 0;
    while i < v.len()
        invariant
            i <= v@.len(),
            all == v@.map_values(|s: String| s@),
            pred == (|y: Seq<char>| y != x@),
            r@.map_values(|s: String| s@) == all.take(i as int).filter(pred),
        decreases v@.len() - i,
    {
        let ghost before = r@.map_values(|s: String| s@);
        proof { lemma_filter_take(all, pred, i as int); }
        if !str_eq(v[i].as_str(), x) {
            r.push(copy_str(v[i].as_str()));
            assert(r@.map_values(|s: String| s@) =~= before.push(v@[i as int]@));
        }
        i += 1;
    }
    assert(all.take(all.len() as int) =~= all);
    r
}

// ---------------------------------------------------------------------------
// Instances of shared dependencies

/// Whether `k` names an instance of a dependency shared by envelope `name`:
/// it begins with `name` and a colon.
pub open spec fn dep_key_of(k: Seq<char>, name: Seq<char>) -> bool {
    match_at(k, 0, name.push(':'))
}

/// The app configuration a dependency key names: what follows its first colon.
pub open spec fn dep_cfg(k: Seq<char>) -> Seq<char> {
    k.skip(idx_of(k, ':') + 1)
}

/// The keys of the dependency instances of envelope `name`, in order.
pub open spec fn dep_keys_of(entries: Seq<(String, DepRecord)>, name: Seq<char>) -> Seq<Seq<char>> {
    entries.map_values(|e: (String, DepRecord)| e.0@).filter(|k: Seq<char>| dep_key_of(k, name))
}

/// The dependency instances of envelope `name`: each key with the app
/// configuration it names and the worktree it runs in.
pub fn dep_slots(state: &ProcessState, name: &str) -> (r: Vec<(String, String, String)>)
    ensures
        r@.map_values(|e: (String, String, String)| e.0@) == dep_keys_of(state.dep_entries(), name@),
        forall|j: int| 0 <= j < r@.len() ==> ((#[trigger] r@[j]).1@ == dep_cfg(r@[j].0@)
            && (state.dep_record(r@[j].0@) matches Some(d) && d.worktree@ == r@[j].2@)),
{
    let entries = state.dep_records();
    assert(forall|j: int| 0 <= j < entries@.len() ==> state.dep_record((#[trigger] entries@[j]).0@) == Some(entries@[j].1));
    let ghost ks = entries@.map_values(|e: (String, DepRecord)| e.0@);
    let ghost pred = |k: Seq<char>| dep_key_of(k, name@);
    let mut p = chars_of(name);
    p.push(':');
    let mut out: Vec<(String, String, String)> = Vec::new();
    let mut i: usize = 0;
    while i < entries.len()
        invariant
            i <= entries@.len(),
            entries@ == state.dep_entries(),
            forall|j: int| 0 <= j < entries@.len() ==> state.dep_record((#[trigger] entries@[j]).0@) == Some(entries@[j].1),
            ks == entries@.map_values(|e: (String, DepRecord)| e.0@),
            pred == (|k: Seq<char>| dep_key_of(k, name@)),
            p@ == name@.push(':'),
            out@.map_values(|e: (String, String, String)| e.0@) == ks.take(i as int).filter(pred),
            forall|j: int| 0 <= j < out@.len() ==> ((#[trigger] out@[j]).1@ == dep_cfg(out@[j].0@)
                && (state.dep_record(out@[j].0@) matches Some(d) && d.worktree@ == out@[j].2@)),
        decreases entries@.len() - i,
    {
        proof { lemma_filter_take(ks, pred, i as int); }
        let ghost before = out@;
        let kv = chars_of(entries[i].0.as_str());
        assert(ks[i as int] == kv@);
        if matches_at(&kv, 0, &p) {
            let c = find_char(&kv, 0, ':');
            proof {
                assert(kv@[name@.len() as int] == ':') by {
                    assert(kv@.subrange(0, p@.len() as int)[name@.len() as int] == p@[name@.len() as int]);
                }
                lemma_idx_of_facts(kv@, ':');
                assert(kv@.contains(':'));
                assert(kv@.subrange(0, kv@.len() as int) =~= kv@);
                assert(idx_of(kv@, ':') < kv@.len());
            }
            assert(c < kv.len());
            let cfg = string_of_range(&kv, c + 1, kv.len());
            assert(cfg@ =~= dep_cfg(kv@));
            let ghost e = entries@[i as int];
            assert(state.dep_record(e.0@) == Some(e.1));
            out.push((copy_str(entries[i].0.as_str()), cfg, copy_str(entries[i].1.worktree.as_str())));
            assert(out@.map_values(|e: (String, String, String)| e.0@) =~= before.map_values(|e: (String, String, String)| e.0@).push(kv@));
        }
        i += 1;
    }
    assert(ks.take(entries@.len() as int) =~= ks);
    out
}

} // verus!
