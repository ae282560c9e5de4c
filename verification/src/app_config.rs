//! Named app configurations (how to start, stop and probe a service for a pull
//! request) and which configuration each repository uses.
use vstd::prelude::*;
use crate::model::clone_opt;
use crate::keyed::{
    keys, lookup, lemma_lookup_at, lemma_lookup_absent, lemma_lookup_found, lemma_lookup_insert_other,
    lemma_lookup_update_other, lemma_sorted_unique, lemma_sorted_insert, lemma_keys_update,
};
use crate::text::{seq_lt, str_lt, str_eq, sorted_strict, lemma_seq_lt_total, copy_str};

verus! {

#[derive(Debug)]
pub struct AppConfig {
    pub name: String,
    pub bootstrap: String,
    pub teardown: String,
    pub startup_timeout: String,
    pub health_check: Option<String>,
    pub ephemeral: bool,
    pub main_worktree: Option<String>,
    /// A command to run once in a worktree before the service first starts there.
    pub setup: Option<String>,
    /// A command that checks that the service's volumes come from its worktree.
    pub volume_check: Option<String>,
}

/// A copy of `c`.
pub fn clone_config(c: &AppConfig) -> (r: AppConfig)
    ensures
        r == *c,
{
    AppConfig {
        name: c.name.clone(),
        bootstrap: c.bootstrap.clone(),
        teardown: c.teardown.clone(),
        startup_timeout: c.startup_timeout.clone(),
        health_check: clone_opt(&c.health_check),
        ephemeral: c.ephemeral,
        main_worktree: clone_opt(&c.main_worktree),
        setup: clone_opt(&c.setup),
        volume_check: clone_opt(&c.volume_check),
    }
}

pub open spec fn config_name(c: AppConfig) -> Seq<char> {
    c.name@
}

pub open spec fn entry_key(e: (String, String)) -> Seq<char> {
    e.0@
}

/// The app configurations and the repositories' assignments, each kept
/// sorted by name so that a name occurs once.
pub struct AppConfigStore {
    path: String,
    configs: Vec<AppConfig>,
    repo_assignments: Vec<(String, String)>,
}

impl AppConfigStore {
    #[verifier::type_invariant]
    spec fn inv(&self) -> bool {
        &&& sorted_strict(keys(self.configs@, |c: AppConfig| config_name(c)))
        &&& sorted_strict(keys(self.repo_assignments@, |e: (String, String)| entry_key(e)))
    }

    pub closed spec fn path_view(&self) -> Seq<char> {
        self.path@
    }

    /// All configurations, in order of name.
    pub closed spec fn configs_view(&self) -> Seq<AppConfig> {
        self.configs@
    }

    /// The configuration named `name`.
    pub closed spec fn config(&self, name: Seq<char>) -> Option<AppConfig> {
        lookup(self.configs@, |c: AppConfig| config_name(c), name)
    }

    /// The configuration name assigned to `repo`.
    pub closed spec fn assignment(&self, repo: Seq<char>) -> Option<Seq<char>> {
        match lookup(self.repo_assignments@, |e: (String, String)| entry_key(e), repo) {
            Some(e) => Some(e.1@),
            None => None,
        }
    }

    /// A store at `path` holding nothing yet.
    pub fn open(path: String) -> (r: Self)
        ensures
            r.path_view() == path@,
            r.configs_view().len() == 0,
            forall|n: Seq<char>| r.config(n) is None,
            forall|n: Seq<char>| r.assignment(n) is None,
    {
        let r = AppConfigStore { path, configs: Vec::new(), repo_assignments: Vec::new() };
        assert forall|n: Seq<char>| r.config(n) is None by {
            lemma_lookup_absent(r.configs@, |c: AppConfig| config_name(c), n);
        }
        assert forall|n: Seq<char>| r.assignment(n) is None by {
            lemma_lookup_absent(r.repo_assignments@, |e: (String, String)| entry_key(e), n);
        }
        r
    }

    pub fn path(&self) -> (r: &str)
        ensures
            r@ == self.path_view(),
    {
        self.path.as_str()
    }

    /// Store `config` under its name, replacing any configuration of that name.
    pub fn save_app_config(&mut self, config: AppConfig)
        ensures
            final(self).path_view() == old(self).path_view(),
            final(self).config(config.name@) == Some(config),
            forall|n: Seq<char>| n != config.name@ ==> final(self).config(n) == old(self).config(n),
            forall|r: Seq<char>| final(self).assignment(r) == old(self).assignment(r),
    {
        proof { use_type_invariant(&*self); }
        let ghost key = |c: AppConfig| config_name(c);
        let ghost v0 = self.configs@;
        let mut i: usize = 0;
        while i < self.configs.len() && str_lt(self.configs[i].name.as_str(), config.name.as_str())
            invariant
                i <= self.configs@.len(),
                self.configs@ == v0,
                key == (|c: AppConfig| config_name(c)),
                forall|j: int| 0 <= j < i ==> seq_lt(key(#[trigger] v0[j]), config.name@),
            decreases self.configs@.len() - i,
        {
            i += 1;
        }
        let same = i < self.configs.len() && str_eq(self.configs[i].name.as_str(), config.name.as_str());
        proof {
            assert forall|j: int| 0 <= j < i implies key(#[trigger] v0[j]) != config.name@ by {
                lemma_seq_lt_total(key(v0[j]), config.name@);
            }
        }
        let ghost name = config.name@;
        let ghost c = config;
        if same {
            let mut cfg = config;
            let mut tmp: Vec<AppConfig> = Vec::new();
            std::mem::swap(&mut tmp, &mut self.configs);
            proof { lemma_keys_update(v0, key, i as int, c); }
            tmp.set(i, cfg);
            std::mem::swap(&mut tmp, &mut self.configs);
            proof {
                let n = v0.update(i as int, c);
                assert(self.configs@ == n);
                assert forall|j: int| 0 <= j < i implies key(#[trigger] n[j]) != key(n[i as int]) by {
                    assert(n[j] == v0[j]);
                }
                lemma_lookup_at(n, key, i as int);
                assert forall|m: Seq<char>| m != name implies lookup(n, key, m) == lookup(v0, key, m) by {
                    lemma_lookup_update_other(v0, key, i as int, c, m);
                }
            }
        } else {
            proof {
                if i < v0.len() {
                    lemma_seq_lt_total(key(v0[i as int]), name);
                }
                if i > 0 {
                    assert(seq_lt(key(v0[i - 1]), name));
                }
                lemma_sorted_insert(v0, key, i as int, c);
            }
            let mut tmp: Vec<AppConfig> = Vec::new();
            std::mem::swap(&mut tmp, &mut self.configs);
            tmp.insert(i, config);
            std::mem::swap(&mut tmp, &mut self.configs);
            proof {
                let n = v0.insert(i as int, c);
                assert(self.configs@ == n);
                assert forall|j: int| 0 <= j < i implies key(#[trigger] n[j]) != key(n[i as int]) by {
                    assert(n[j] == v0[j]);
                }
                lemma_lookup_at(n, key, i as int);
                assert forall|m: Seq<char>| m != name implies lookup(n, key, m) == lookup(v0, key, m) by {
                    lemma_lookup_insert_other(v0, key, i as int, c, m);
                }
            }
        }
    }

    /// The configuration named `name`.
    pub fn load_app_config(&self, name: &str) -> (r: Option<AppConfig>)
        ensures
            r == self.config(name@),
    {
        proof { use_type_invariant(self); }
        let ghost key = |c: AppConfig| config_name(c);
        let mut i: usize = 0;
        while i < self.configs.len()
            invariant
                i <= self.configs@.len(),
                key == (|c: AppConfig| config_name(c)),
                forall|j: int| 0 <= j < i ==> key(#[trigger] self.configs@[j]) != name@,
            decreases self.configs@.len() - i,
        {
            if str_eq(self.configs[i].name.as_str(), name) {
                proof { lemma_lookup_at(self.configs@, key, i as int); }
                return Some(clone_config(&self.configs[i]));
            }
            i += 1;
        }
        proof { lemma_lookup_absent(self.configs@, key, name@); }
        None
    }

    /// Assign the configuration `config_name` to `repo`.
    pub fn set_repo_config(&mut self, repo: &str, config_name: &str)
        ensures
            final(self).path_view() == old(self).path_view(),
            final(self).assignment(repo@) == Some(config_name@),
            forall|r: Seq<char>| r != repo@ ==> final(self).assignment(r) == old(self).assignment(r),
            forall|n: Seq<char>| final(self).config(n) == old(self).config(n),
            final(self).configs_view() == old(self).configs_view(),
    {
        proof { use_type_invariant(&*self); }
        let ghost key = |e: (String, String)| entry_key(e);
        let ghost v0 = self.repo_assignments@;
        let mut i: usize = 0;
        while i < self.repo_assignments.len() && str_lt(self.repo_assignments[i].0.as_str(), repo)
            invariant
                i <= self.repo_assignments@.len(),
                self.repo_assignments@ == v0,
                key == (|e: (String, String)| entry_key(e)),
                forall|j: int| 0 <= j < i ==> seq_lt(key(#[trigger] v0[j]), repo@),
            decreases self.repo_assignments@.len() - i,
        {
            i += 1;
        }
        let same = i < self.repo_assignments.len() && str_eq(self.repo_assignments[i].0.as_str(), repo);
        proof {
            assert forall|j: int| 0 <= j < i implies key(#[trigger] v0[j]) != repo@ by {
                lemma_seq_lt_total(key(v0[j]), repo@);
            }
        }
        let e = (copy_str(repo), copy_str(config_name));
        let ghost c = e;
        let mut tmp: Vec<(String, String)> = Vec::new();
        std::mem::swap(&mut tmp, &mut self.repo_assignments);
        if same {
            tmp.set(i, e);
            proof { lemma_keys_update(v0, key, i as int, c); }
        } else {
            proof {
                if i < v0.len() {
                    lemma_seq_lt_total(key(v0[i as int]), repo@);
                }
                lemma_sorted_insert(v0, key, i as int, c);
            }
            tmp.insert(i, e);
        }
        std::mem::swap(&mut tmp, &mut self.repo_assignments);
        proof {
            let n = self.repo_assignments@;
            assert(n[i as int] == c);
            assert forall|j: int| 0 <= j < i implies key(#[trigger] n[j]) != key(n[i as int]) by {
                assert(n[j] == v0[j]);
            }
            lemma_lookup_at(n, key, i as int);
            assert forall|m: Seq<char>| m != repo@ implies lookup(n, key, m) == lookup(v0, key, m) by {
                if same {
                    lemma_lookup_update_other(v0, key, i as int, c, m);
                } else {
                    lemma_lookup_insert_other(v0, key, i as int, c, m);
                }
            }
        }
    }

    /// The configuration name assigned to `repo`.
    pub fn get_repo_config(&self, repo: &str) -> (r: Option<String>)
        ensures
            match r {
                Some(n) => self.assignment(repo@) == Some(n@),
                None => self.assignment(repo@) is None,
            },
    {
        proof { use_type_invariant(self); }
        let ghost key = |e: (String, String)| entry_key(e);
        let mut i: usize = 0;
        while i < self.repo_assignments.len()
            invariant
                i <= self.repo_assignments@.len(),
                key == (|e: (String, String)| entry_key(e)),
                forall|j: int| 0 <= j < i ==> key(#[trigger] self.repo_assignments@[j]) != repo@,
            decreases self.repo_assignments@.len() - i,
        {
            if str_eq(self.repo_assignments[i].0.as_str(), repo) {
                proof { lemma_lookup_at(self.repo_assignments@, key, i as int); }
                return Some(self.repo_assignments[i].1.clone());
            }
            i += 1;
        }
        proof { lemma_lookup_absent(self.repo_assignments@, key, repo@); }
        None
    }

    /// Each configuration of the list is the one stored under its name, and each
    /// stored name is listed.
    proof fn lemma_configs_listed(&self)
        requires
            sorted_strict(keys(self.configs@, |c: AppConfig| config_name(c))),
        ensures
            forall|j: int| 0 <= j < self.configs@.len() ==> self.config((#[trigger] self.configs@[j]).name@) == Some(self.configs@[j]),
            forall|n: Seq<char>| #[trigger] self.config(n) is Some
                ==> exists|j: int| 0 <= j < self.configs@.len() && (#[trigger] self.configs@[j]).name@ == n,
    {
        let key = |c: AppConfig| config_name(c);
        assert forall|j: int| 0 <= j < self.configs@.len() implies self.config((#[trigger] self.configs@[j]).name@) == Some(self.configs@[j]) by {
            lemma_sorted_unique(self.configs@, key, j);
            lemma_lookup_at(self.configs@, key, j);
        }
        assert forall|n: Seq<char>| #[trigger] self.config(n) is Some
            implies exists|j: int| 0 <= j < self.configs@.len() && (#[trigger] self.configs@[j]).name@ == n by {
            lemma_lookup_found(self.configs@, key, n);
        }
    }

    /// All configurations, in order of name.
    pub fn list_app_configs(&self) -> (r: Vec<AppConfig>)
        ensures
            r@ == self.configs_view(),
            sorted_strict(keys(r@, |c: AppConfig| config_name(c))),
            forall|j: int| 0 <= j < r@.len() ==> self.config((#[trigger] r@[j]).name@) == Some(r@[j]),
            forall|n: Seq<char>| #[trigger] self.config(n) is Some
                ==> exists|j: int| 0 <= j < r@.len() && (#[trigger] r@[j]).name@ == n,
    {
        proof {
            use_type_invariant(self);
            self.lemma_configs_listed();
        }
        let mut r: Vec<AppConfig> = Vec::new();
        let mut i: usize = 0;
        while i < self.configs.len()
            invariant
                i <= self.configs@.len(),
                r@ == self.configs@.take(i as int),
            decreases self.configs@.len() - i,
        {
            r.push(clone_config(&self.configs[i]));
            assert(self.configs@.take(i + 1) =~= self.configs@.take(i as int).push(self.configs@[i as int]));
            i += 1;
        }
        assert(self.configs@.take(self.configs@.len() as int) =~= self.configs@);
        r
    }

    /// All repository assignments, in order of repository.
    pub fn list_repo_configs(&self) -> (r: Vec<(String, String)>)
        ensures
            forall|j: int| 0 <= j < r@.len() ==> self.assignment((#[trigger] r@[j]).0@) == Some(r@[j].1@),
            forall|repo: Seq<char>| self.assignment(repo) is Some ==> exists|j: int| 0 <= j < r@.len() && (#[trigger] r@[j]).0@ == repo,
    {
        proof { use_type_invariant(self); }
        let ghost key = |e: (String, String)| entry_key(e);
        let mut r: Vec<(String, String)> = Vec::new();
        let mut i: usize = 0;
        while i < self.repo_assignments.len()
            invariant
                i <= self.repo_assignments@.len(),
                key == (|e: (String, String)| entry_key(e)),
                r@ == self.repo_assignments@.take(i as int),
            decreases self.repo_assignments@.len() - i,
        {
            let e = &self.repo_assignments[i];
            r.push((e.0.clone(), e.1.clone()));
            assert(self.repo_assignments@.take(i + 1) =~= self.repo_assignments@.take(i as int).push(self.repo_assignments@[i as int]));
            i += 1;
        }
        assert(self.repo_assignments@.take(self.repo_assignments@.len() as int) =~= self.repo_assignments@);
        proof {
            let v = self.repo_assignments@;
            assert forall|j: int| 0 <= j < r@.len() implies self.assignment((#[trigger] r@[j]).0@) == Some(r@[j].1@) by {
                lemma_sorted_unique(v, key, j);
                lemma_lookup_at(v, key, j);
            }
            assert forall|repo: Seq<char>| self.assignment(repo) is Some implies exists|j: int| 0 <= j < r@.len() && (#[trigger] r@[j]).0@ == repo by {
                lemma_lookup_found(v, key, repo);
            }
        }
        r
    }
}

/// The configuration assigned to `repo` by the last of `writes` that names
/// it, if any.
pub open spec fn last_write(writes: Seq<(Seq<char>, Seq<char>)>, repo: Seq<char>) -> Option<Seq<char>>
    decreases writes.len(),
{
    if writes.len() == 0 {
        None
    } else if writes.last().0 == repo {
        Some(writes.last().1)
    } else {
        last_write(writes.drop_last(), repo)
    }
}

/// What `set_repo_config(w.0, w.1)` does to the assignments of `before`.
pub open spec fn assigned_after(before: AppConfigStore, after: AppConfigStore, w: (Seq<char>, Seq<char>)) -> bool {
    &&& after.assignment(w.0) == Some(w.1)
    &&& forall|r: Seq<char>| r != w.0 ==> after.assignment(r) == before.assignment(r)
}

/// Starting from a store with no assignment (as `open` gives) and assigning in
/// turn each of `writes`, reading a repository back gives its last write, and
/// nothing for a repository never written.
pub proof fn law_repo_config_last_write(stores: Seq<AppConfigStore>, writes: Seq<(Seq<char>, Seq<char>)>, repo: Seq<char>)
    requires
        stores.len() == writes.len() + 1,
        forall|r: Seq<char>| stores[0].assignment(r) is None,
        forall|i: int| 0 <= i < writes.len() ==> assigned_after(stores[i], stores[i + 1], #[trigger] writes[i]),
    ensures
        stores.last().assignment(repo) == last_write(writes, repo),
    decreases writes.len(),
{
    if writes.len() > 0 {
        let n = writes.len() - 1;
        assert forall|i: int| 0 <= i < writes.drop_last().len()
            implies assigned_after(stores.drop_last()[i], stores.drop_last()[i + 1], #[trigger] writes.drop_last()[i]) by {
            assert(writes.drop_last()[i] == writes[i]);
            assert(stores.drop_last()[i] == stores[i] && stores.drop_last()[i + 1] == stores[i + 1]);
        }
        law_repo_config_last_write(stores.drop_last(), writes.drop_last(), repo);
        assert(assigned_after(stores[n], stores[n + 1], writes[n]));
        assert(stores.drop_last().last() == stores[n]);
    }
}

} // verus!
