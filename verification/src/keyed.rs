//! Sequences used as maps: looking an item up by a text key, and keeping the
//! keys strictly sorted so that each occurs once.
use vstd::prelude::*;
use crate::text::{seq_lt, sorted_strict, lemma_seq_lt_total, lemma_seq_lt_trans, lemma_seq_lt_irrefl, str_lt, str_eq};

verus! {

pub open spec fn keys<T>(v: Seq<T>, key: spec_fn(T) -> Seq<char>) -> Seq<Seq<char>> {
    v.map_values(|x: T| key(x))
}

/// The first item of `v` whose key is `k`.
pub open spec fn lookup<T>(v: Seq<T>, key: spec_fn(T) -> Seq<char>, k: Seq<char>) -> Option<T>
    decreases v.len(),
{
    if v.len() == 0 {
        None
    } else if key(v[0]) == k {
        Some(v[0])
    } else {
        lookup(v.drop_first(), key, k)
    }
}

pub proof fn lemma_lookup_at<T>(v: Seq<T>, key: spec_fn(T) -> Seq<char>, i: int)
    requires
        0 <= i < v.len(),
        forall|j: int| 0 <= j < i ==> key(#[trigger] v[j]) != key(v[i]),
    ensures
        lookup(v, key, key(v[i])) == Some(v[i]),
    decreases i,
{
    if i > 0 {
        let t = v.drop_first();
        assert(t[i - 1] == v[i]);
        assert forall|j: int| 0 <= j < i - 1 implies key(#[trigger] t[j]) != key(t[i - 1]) by {
            assert(t[j] == v[j + 1]);
        }
        assert(key(v[0]) != key(v[i]));
        lemma_lookup_at(t, key, i - 1);
    }
}

pub proof fn lemma_lookup_absent<T>(v: Seq<T>, key: spec_fn(T) -> Seq<char>, k: Seq<char>)
    requires
        forall|j: int| 0 <= j < v.len() ==> key(#[trigger] v[j]) != k,
    ensures
        lookup(v, key, k) is None,
    decreases v.len(),
{
    if v.len() > 0 {
        let t = v.drop_first();
        assert forall|j: int| 0 <= j < t.len() implies key(#[trigger] t[j]) != k by {
            assert(t[j] == v[j + 1]);
        }
        assert(key(v[0]) != k);
        lemma_lookup_absent(t, key, k);
    }
}

pub proof fn lemma_lookup_found<T>(v: Seq<T>, key: spec_fn(T) -> Seq<char>, k: Seq<char>)
    ensures
        lookup(v, key, k) is Some ==> exists|j: int| 0 <= j < v.len() && v[j] == lookup(v, key, k)->0 && key(#[trigger] v[j]) == k,
        lookup(v, key, k) is None ==> forall|j: int| 0 <= j < v.len() ==> key(#[trigger] v[j]) != k,
    decreases v.len(),
{
    if v.len() > 0 && key(v[0]) != k {
        let t = v.drop_first();
        lemma_lookup_found(t, key, k);
        if lookup(t, key, k) is Some {
            let j = choose|j: int| 0 <= j < t.len() && t[j] == lookup(t, key, k)->0 && key(#[trigger] t[j]) == k;
            assert(v[j + 1] == t[j]);
        } else {
            assert forall|j: int| 0 <= j < v.len() implies key(#[trigger] v[j]) != k by {
                if j > 0 {
                    assert(v[j] == t[j - 1]);
                }
            }
        }
    } else if v.len() > 0 {
        assert(key(v[0]) == k);
    }
}

pub proof fn lemma_lookup_insert_other<T>(v: Seq<T>, key: spec_fn(T) -> Seq<char>, i: int, c: T, k: Seq<char>)
    requires
        0 <= i <= v.len(),
        key(c) != k,
    ensures
        lookup(v.insert(i, c), key, k) == lookup(v, key, k),
    decreases v.len(),
{
    let n = v.insert(i, c);
    if i == 0 {
        assert(n.drop_first() =~= v);
    } else {
        assert(n[0] == v[0]);
        assert(n.drop_first() =~= v.drop_first().insert(i - 1, c));
        lemma_lookup_insert_other(v.drop_first(), key, i - 1, c, k);
    }
}

pub proof fn lemma_lookup_update_other<T>(v: Seq<T>, key: spec_fn(T) -> Seq<char>, i: int, c: T, k: Seq<char>)
    requires
        0 <= i < v.len(),
        key(c) == key(v[i]),
        key(c) != k,
    ensures
        lookup(v.update(i, c), key, k) == lookup(v, key, k),
    decreases v.len(),
{
    let n = v.update(i, c);
    if i == 0 {
        assert(n.drop_first() =~= v.drop_first());
    } else {
        assert(n[0] == v[0]);
        assert(n.drop_first() =~= v.drop_first().update(i - 1, c));
        lemma_lookup_update_other(v.drop_first(), key, i - 1, c, k);
    }
}

pub proof fn lemma_lookup_remove_other<T>(v: Seq<T>, key: spec_fn(T) -> Seq<char>, i: int, k: Seq<char>)
    requires
        0 <= i < v.len(),
        key(v[i]) != k,
    ensures
        lookup(v.remove(i), key, k) == lookup(v, key, k),
    decreases v.len(),
{
    let n = v.remove(i);
    if i == 0 {
        assert(n =~= v.drop_first());
    } else {
        assert(n[0] == v[0]);
        assert(n.drop_first() =~= v.drop_first().remove(i - 1));
        lemma_lookup_remove_other(v.drop_first(), key, i - 1, k);
    }
}

/// In a strictly sorted sequence, an item's key occurs nowhere before it.
pub proof fn lemma_sorted_unique<T>(v: Seq<T>, key: spec_fn(T) -> Seq<char>, i: int)
    requires
        sorted_strict(keys(v, key)),
        0 <= i < v.len(),
    ensures
        forall|j: int| 0 <= j < v.len() && j != i ==> key(#[trigger] v[j]) != key(v[i]),
{
    assert forall|j: int| 0 <= j < v.len() && j != i implies key(#[trigger] v[j]) != key(v[i]) by {
        let ks = keys(v, key);
        assert(ks[j] == key(v[j]) && ks[i] == key(v[i]));
        if j < i {
            assert(seq_lt(ks[j], ks[i]));
            lemma_seq_lt_total(ks[j], ks[i]);
        } else {
            assert(seq_lt(ks[i], ks[j]));
            lemma_seq_lt_total(ks[i], ks[j]);
        }
    }
}

/// Inserting at `i` an item whose key falls strictly between its neighbours
/// keeps the keys strictly sorted.
pub proof fn lemma_sorted_insert<T>(v: Seq<T>, key: spec_fn(T) -> Seq<char>, i: int, c: T)
    requires
        sorted_strict(keys(v, key)),
        0 <= i <= v.len(),
        i > 0 ==> seq_lt(key(v[i - 1]), key(c)),
        i < v.len() ==> seq_lt(key(c), key(v[i])),
    ensures
        sorted_strict(keys(v.insert(i, c), key)),
{
    let n = v.insert(i, c);
    let ks = keys(v, key);
    let kn = keys(n, key);
    assert forall|p: int, q: int| 0 <= p < q < kn.len() implies seq_lt(#[trigger] kn[p], #[trigger] kn[q]) by {
        assert(kn[p] == key(n[p]) && kn[q] == key(n[q]));
        if q < i {
            assert(n[p] == v[p] && n[q] == v[q]);
            assert(ks[p] == key(v[p]) && ks[q] == key(v[q]));
        } else if q == i {
            assert(n[q] == c && n[p] == v[p]);
            if p < i - 1 {
                assert(ks[p] == key(v[p]) && ks[i - 1] == key(v[i - 1]));
                lemma_seq_lt_trans(key(v[p]), key(v[i - 1]), key(c));
            }
        } else if p == i {
            assert(n[p] == c && n[q] == v[q - 1]);
            if q - 1 > i {
                assert(ks[i] == key(v[i]) && ks[q - 1] == key(v[q - 1]));
                lemma_seq_lt_trans(key(c), key(v[i]), key(v[q - 1]));
            }
        } else if p < i {
            assert(n[p] == v[p] && n[q] == v[q - 1]);
            assert(ks[p] == key(v[p]) && ks[q - 1] == key(v[q - 1]));
        } else {
            assert(n[p] == v[p - 1] && n[q] == v[q - 1]);
            assert(ks[p - 1] == key(v[p - 1]) && ks[q - 1] == key(v[q - 1]));
        }
    }
}

/// Replacing an item by one with the same key keeps the keys as they were.
pub proof fn lemma_keys_update<T>(v: Seq<T>, key: spec_fn(T) -> Seq<char>, i: int, c: T)
    requires
        0 <= i < v.len(),
        key(c) == key(v[i]),
    ensures
        keys(v.update(i, c), key) == keys(v, key),
{
    assert(keys(v.update(i, c), key) =~= keys(v, key));
}

/// Removing an item keeps the keys strictly sorted.
pub proof fn lemma_sorted_remove<T>(v: Seq<T>, key: spec_fn(T) -> Seq<char>, i: int)
    requires
        sorted_strict(keys(v, key)),
        0 <= i < v.len(),
    ensures
        sorted_strict(keys(v.remove(i), key)),
{
    let n = v.remove(i);
    let ks = keys(v, key);
    let kn = keys(n, key);
    assert forall|p: int, q: int| 0 <= p < q < kn.len() implies seq_lt(#[trigger] kn[p], #[trigger] kn[q]) by {
        let pp = if p < i { p } else { p + 1 };
        let qq = if q < i { q } else { q + 1 };
        assert(n[p] == v[pp] && n[q] == v[qq]);
        assert(ks[pp] == key(v[pp]) && ks[qq] == key(v[qq]));
    }
}


/// The key of an entry of a keyed sequence.
pub open spec fn pkey<X>(e: (String, X)) -> Seq<char> {
    e.0@
}

/// A keyed sequence: strictly sorted by key, so each key occurs once.
pub open spec fn keyed<X>(v: Seq<(String, X)>) -> bool {
    sorted_strict(keys(v, |e: (String, X)| pkey(e)))
}

/// The entry of `v` with key `k`.
pub open spec fn entry<X>(v: Seq<(String, X)>, k: Seq<char>) -> Option<(String, X)> {
    lookup(v, |e: (String, X)| pkey(e), k)
}

/// The position where `k` is or would go in the keyed `v`, and whether it is there.
fn position<X>(v: &Vec<(String, X)>, k: &str) -> (r: (usize, bool))
    requires
        keyed(v@),
    ensures
        r.0 <= v@.len(),
        forall|j: int| 0 <= j < r.0 ==> seq_lt(pkey(#[trigger] v@[j]), k@),
        r.1 ==> r.0 < v@.len() && v@[r.0 as int].0@ == k@,
        !r.1 && r.0 < v@.len() ==> seq_lt(k@, v@[r.0 as int].0@),
{
    let mut i: usize = 0;
    while i < v.len() && str_lt(v[i].0.as_str(), k)
        invariant
            i <= v@.len(),
            forall|j: int| 0 <= j < i ==> seq_lt(pkey(#[trigger] v@[j]), k@),
        decreases v@.len() - i,
    {
        i += 1;
    }
    let same = i < v.len() && str_eq(v[i].0.as_str(), k);
    proof {
        if i < v@.len() && !same {
            lemma_seq_lt_total(v@[i as int].0@, k@);
        }
    }
    (i, same)
}

/// Where the entry with key `k` is.
pub fn find_entry<X>(v: &Vec<(String, X)>, k: &str) -> (r: Option<usize>)
    requires
        keyed(v@),
    ensures
        match r {
            Some(i) => i < v@.len() && v@[i as int].0@ == k@ && entry(v@, k@) == Some(v@[i as int]),
            None => entry(v@, k@) is None,
        },
{
    let ghost key = |e: (String, X)| pkey(e);
    let (i, same) = position(v, k);
    proof {
        assert forall|j: int| 0 <= j < i implies key(#[trigger] v@[j]) != k@ by {
            lemma_seq_lt_total(pkey(v@[j]), k@);
        }
    }
    if same {
        proof { lemma_lookup_at(v@, key, i as int); }
        Some(i)
    } else {
        proof {
            assert forall|j: int| 0 <= j < v@.len() implies key(#[trigger] v@[j]) != k@ by {
                if j >= i && i < v@.len() {
                    lemma_seq_lt_total(k@, pkey(v@[i as int]));
                    if j > i {
                        let ks = keys(v@, key);
                        assert(ks[i as int] == pkey(v@[i as int]) && ks[j] == pkey(v@[j]));
                        lemma_seq_lt_trans(k@, pkey(v@[i as int]), pkey(v@[j]));
                    }
                    lemma_seq_lt_total(k@, pkey(v@[j]));
                }
            }
            lemma_lookup_absent(v@, key, k@);
        }
        None
    }
}

/// Whether `v` has an entry with key `k`.
pub fn has_entry<X>(v: &Vec<(String, X)>, k: &str) -> (r: bool)
    requires
        keyed(v@),
    ensures
        r == entry(v@, k@) is Some,
{
    find_entry(v, k).is_some()
}

/// Set the entry with key `k` to `x`, adding it when there is none.
pub fn upsert<X>(v: &mut Vec<(String, X)>, k: String, x: X)
    requires
        keyed(old(v)@),
    ensures
        keyed(final(v)@),
        entry(final(v)@, k@) == Some((k, x)),
        forall|m: Seq<char>| m != k@ ==> entry(final(v)@, m) == entry(old(v)@, m),
{
    let ghost key = |e: (String, X)| pkey(e);
    let ghost v0 = v@;
    let (i, same) = position(v, k.as_str());
    let ghost kk = k@;
    let ghost c = (k, x);
    proof {
        assert forall|j: int| 0 <= j < i implies key(#[trigger] v0[j]) != kk by {
            lemma_seq_lt_total(pkey(v0[j]), kk);
        }
    }
    if same {
        v.set(i, (k, x));
        proof { lemma_keys_update(v0, key, i as int, c); }
    } else {
        proof {
            if i > 0 {
                assert(seq_lt(key(v0[i - 1]), kk));
            }
            lemma_sorted_insert(v0, key, i as int, c);
        }
        v.insert(i, (k, x));
    }
    proof {
        let n = v@;
        assert(n[i as int] == c);
        assert forall|j: int| 0 <= j < i implies key(#[trigger] n[j]) != key(n[i as int]) by {
            assert(n[j] == v0[j]);
        }
        lemma_lookup_at(n, key, i as int);
        assert forall|m: Seq<char>| m != kk implies lookup(n, key, m) == lookup(v0, key, m) by {
            if same {
                lemma_lookup_update_other(v0, key, i as int, c, m);
            } else {
                lemma_lookup_insert_other(v0, key, i as int, c, m);
            }
        }
    }
}

/// Drop the entry with key `k`, if there is one.
pub fn remove_entry<X>(v: &mut Vec<(String, X)>, k: &str)
    requires
        keyed(old(v)@),
    ensures
        keyed(final(v)@),
        entry(final(v)@, k@) is None,
        forall|m: Seq<char>| m != k@ ==> entry(final(v)@, m) == entry(old(v)@, m),
{
    let ghost key = |e: (String, X)| pkey(e);
    let ghost v0 = v@;
    match find_entry(v, k) {
        None => {},
        Some(i) => {
            proof {
                lemma_sorted_remove(v0, key, i as int);
                lemma_sorted_unique(v0, key, i as int);
            }
            v.remove(i);
            proof {
                let n = v@;
                assert forall|j: int| 0 <= j < n.len() implies key(#[trigger] n[j]) != k@ by {
                    if j < i {
                        assert(n[j] == v0[j]);
                    } else {
                        assert(n[j] == v0[j + 1]);
                    }
                }
                lemma_lookup_absent(n, key, k@);
                assert forall|m: Seq<char>| m != k@ implies lookup(n, key, m) == lookup(v0, key, m) by {
                    lemma_lookup_remove_other(v0, key, i as int, m);
                }
            }
        },
    }
}

/// One more item of `s` either joins the filtered prefix at its end or is dropped.
pub proof fn lemma_filter_take<A>(s: Seq<A>, pred: spec_fn(A) -> bool, i: int)
    requires
        0 <= i < s.len(),
    ensures
        s.take(i + 1).filter(pred) == if pred(s[i]) {
            s.take(i).filter(pred).push(s[i])
        } else {
            s.take(i).filter(pred)
        },
{
    reveal_with_fuel(Seq::<_>::filter, 1);
    assert(s.take(i + 1).drop_last() =~= s.take(i));
}

} // verus!
