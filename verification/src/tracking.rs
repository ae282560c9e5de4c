//! The pull requests `fp` tracks, and what it remembers of each (title,
//! branch, base).
use vstd::prelude::*;
use crate::model::PrCache;
use crate::keyed::lemma_filter_take;

verus! {

/// The tracked pull request numbers, and the remembered details of pull
/// requests by number.
pub struct TrackedPrs {
    numbers: Vec<u64>,
    cache: Vec<PrCache>,
}

pub open spec fn cache_number(c: PrCache) -> u64 {
    c.number
}

pub open spec fn other_number(pr: u64) -> spec_fn(u64) -> bool {
    |x: u64| x != pr
}

pub open spec fn other_cache(pr: u64) -> spec_fn(PrCache) -> bool {
    |c: PrCache| c.number != pr
}

/// `v` without the number `pr`.
pub open spec fn numbers_without(v: Seq<u64>, pr: u64) -> Seq<u64> {
    v.filter(other_number(pr))
}

/// `v` without the details of `pr`.
pub open spec fn cache_without(v: Seq<PrCache>, pr: u64) -> Seq<PrCache> {
    v.filter(other_cache(pr))
}

/// The remembered details of `n`: the first entry for it.
pub open spec fn cached_of(cache: Seq<PrCache>, n: u64) -> Option<PrCache>
    decreases cache.len(),
{
    if cache.len() == 0 {
        None
    } else if cache[0].number == n {
        Some(cache[0])
    } else {
        cached_of(cache.drop_first(), n)
    }
}

impl TrackedPrs {
    /// The tracked numbers, in the order they were tracked, each once.
    pub closed spec fn numbers_view(&self) -> Seq<u64> {
        self.numbers@
    }

    /// The remembered details, in the order they were last written, one per number.
    pub closed spec fn cache_view(&self) -> Seq<PrCache> {
        self.cache@
    }

    /// Whether `pr` is tracked.
    pub open spec fn is_tracked(&self, pr: u64) -> bool {
        self.numbers_view().contains(pr)
    }

    /// Nothing tracked, nothing remembered.
    pub fn new() -> (r: Self)
        ensures
            r.numbers_view().len() == 0,
            r.cache_view().len() == 0,
    {
        TrackedPrs { numbers: Vec::new(), cache: Vec::new() }
    }

    pub fn numbers(&self) -> (r: &Vec<u64>)
        ensures
            r@ == self.numbers_view(),
    {
        &self.numbers
    }

    pub fn cache(&self) -> (r: &Vec<PrCache>)
        ensures
            r@ == self.cache_view(),
    {
        &self.cache
    }

    /// The remembered details of `n`.
    pub fn cached(&self, n: u64) -> (r: Option<&PrCache>)
        ensures
            match r {
                Some(c) => cached_of(self.cache_view(), n) == Some(*c),
                None => cached_of(self.cache_view(), n) is None,
            },
    {
        let mut i: usize = 0;
        assert(self.cache@.skip(0) =~= self.cache@);
        while i < self.cache.len()
            invariant
                i <= self.cache@.len(),
                cached_of(self.cache@, n) == cached_of(self.cache@.skip(i as int), n),
            decreases self.cache@.len() - i,
        {
            assert(self.cache@.skip(i as int)[0] == self.cache@[i as int]);
            assert(self.cache@.skip(i as int).drop_first() =~= self.cache@.skip(i + 1));
            if self.cache[i].number == n {
                return Some(&self.cache[i]);
            }
            i += 1;
        }
        None
    }

    /// Track `pr`; no change when it is tracked already.
    pub fn track(&mut self, pr: u64)
        ensures
            final(self).numbers_view() == if old(self).is_tracked(pr) {
                old(self).numbers_view()
            } else {
                old(self).numbers_view().push(pr)
            },
            final(self).cache_view() == old(self).cache_view(),
            final(self).is_tracked(pr),
            forall|n: u64| n != pr ==> final(self).is_tracked(n) == old(self).is_tracked(n),
    {
        let mut i: usize = 0;
        while i < self.numbers.len()
            invariant
                i <= self.numbers@.len(),
                forall|j: int| 0 <= j < i ==> self.numbers@[j] != pr,
            decreases self.numbers@.len() - i,
        {
            if self.numbers[i] == pr {
                assert(self.numbers@.contains(pr));
                return;
            }
            i += 1;
        }
        let ghost t0 = self.numbers@;
        self.numbers.push(pr);
        proof {
            assert(self.numbers@[t0.len() as int] == pr);
            assert forall|n: u64| n != pr implies self.numbers@.contains(n) == t0.contains(n) by {
                if t0.contains(n) {
                    let k = choose|k: int| 0 <= k < t0.len() && t0[k] == n;
                    assert(self.numbers@[k] == n);
                }
                if self.numbers@.contains(n) {
                    let k = choose|k: int| 0 <= k < self.numbers@.len() && self.numbers@[k] == n;
                    assert(t0[k] == n);
                }
            }
        }
    }

    /// Stop tracking `pr` and forget its details.
    pub fn untrack(&mut self, pr: u64)
        ensures
            final(self).numbers_view() == numbers_without(old(self).numbers_view(), pr),
            final(self).cache_view() == cache_without(old(self).cache_view(), pr),
            !final(self).is_tracked(pr),
    {
        let ghost pt = other_number(pr);
        let ghost t0 = self.numbers@;
        let mut kept: Vec<u64> = Vec::new();
        let mut i: usize = 0;
        while i < self.numbers.len()
            invariant
                i <= t0.len(),
                self.numbers@ == t0,
                pt == other_number(pr),
                kept@ == t0.take(i as int).filter(pt),
            decreases t0.len() - i,
        {
            proof { lemma_filter_take(t0, pt, i as int); }
            if self.numbers[i] != pr {
                kept.push(self.numbers[i]);
            }
            i += 1;
        }
        assert(t0.take(t0.len() as int) =~= t0);
        let ghost pc = other_cache(pr);
        let ghost c0 = self.cache@;
        let mut kept_cache: Vec<PrCache> = Vec::new();
        let mut j: usize = 0;
        while j < self.cache.len()
            invariant
                j <= c0.len(),
                self.cache@ == c0,
                pc == other_cache(pr),
                kept_cache@ == c0.take(j as int).filter(pc),
            decreases c0.len() - j,
        {
            proof { lemma_filter_take(c0, pc, j as int); }
            if self.cache[j].number != pr {
                kept_cache.push(copy_cache(&self.cache[j]));
            }
            j += 1;
        }
        assert(c0.take(c0.len() as int) =~= c0);
        self.numbers = kept;
        self.cache = kept_cache;
        proof {
            if self.numbers@.contains(pr) {
                t0.lemma_filter_contains_rev(pt, pr);
            }
        }
    }

    /// Remember `c` as the details of pull request `c.number`, in place of any
    /// earlier ones.
    pub fn update_cache(&mut self, c: PrCache)
        ensures
            final(self).cache_view() == cache_without(old(self).cache_view(), c.number).push(c),
            final(self).numbers_view() == old(self).numbers_view(),
    {
        let ghost pc = other_cache(c.number);
        let ghost c0 = self.cache@;
        let mut kept: Vec<PrCache> = Vec::new();
        let mut j: usize = 0;
        while j < self.cache.len()
            invariant
                j <= c0.len(),
                self.cache@ == c0,
                pc == other_cache(c.number),
                kept@ == c0.take(j as int).filter(pc),
            decreases c0.len() - j,
        {
            proof { lemma_filter_take(c0, pc, j as int); }
            if self.cache[j].number != c.number {
                kept.push(copy_cache(&self.cache[j]));
            }
            j += 1;
        }
        assert(c0.take(c0.len() as int) =~= c0);
        kept.push(c);
        self.cache = kept;
    }
}

/// A copy of `c`.
pub fn copy_cache(c: &PrCache) -> (r: PrCache)
    ensures
        r == *c,
{
    PrCache { number: c.number, title: c.title.clone(), branch: c.branch.clone(), base: c.base.clone() }
}

} // verus!
