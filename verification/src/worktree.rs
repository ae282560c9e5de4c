//! Branch stacks seen from their worktrees: which branches a lock holds back.
use vstd::prelude::*;
use crate::text::{copy_str, str_eq, sviews};
use crate::feature::has_string;

verus! {

/// The repository a command works on, or an error when there is no GitHub
/// remote to take it from.
pub fn require_repo(repo: Option<(String, String)>) -> (r: Result<(String, String), String>)
    ensures
        repo is None <==> r is Err,
        r matches Err(e) ==> e@ == "no GitHub remote found"@,
        r matches Ok(p) ==> repo == Some(p),
{
    match repo {
        Some(p) => Ok(p),
        None => Err(String::from_str("no GitHub remote found")),
    }
}

/// The parent recorded for `b`: that of the first entry for `b`.
pub open spec fn parent_at(po: Seq<(String, Option<String>)>, b: Seq<char>) -> Option<Seq<char>>
    decreases po.len(),
{
    if po.len() == 0 {
        None
    } else if po[0].0@ == b {
        match po[0].1 {
            Some(p) => Some(p@),
            None => None,
        }
    } else {
        parent_at(po.drop_first(), b)
    }
}

/// Whether following at most `n` parents from `b` meets a locked branch.
pub open spec fn under_locked(po: Seq<(String, Option<String>)>, locked: Seq<Seq<char>>, b: Seq<char>, n: nat) -> bool
    decreases n,
{
    if n == 0 {
        false
    } else {
        match parent_at(po, b) {
            Some(p) => locked.contains(p) || under_locked(po, locked, p, (n - 1) as nat),
            None => false,
        }
    }
}

/// Whether `b` is held back by a lock above it: it is not locked itself, and
/// its chain of parents (as long as the map, at most) meets a locked branch.
pub open spec fn held_back(po: Seq<(String, Option<String>)>, locked: Seq<Seq<char>>, b: Seq<char>) -> bool {
    !locked.contains(b) && under_locked(po, locked, b, po.len())
}

/// The parent recorded for `b`.
fn parent_of_branch(po: &Vec<(String, Option<String>)>, b: &str) -> (r: Option<String>)
    ensures
        crate::model::opt_view(r) == parent_at(po@, b@),
{
    let mut i: usize = 0;
    assert(po@.skip(0) =~= po@);
    while i < po.len()
        invariant
            i <= po@.len(),
            parent_at(po@, b@) == parent_at(po@.skip(i as int), b@),
        decreases po@.len() - i,
    {
        assert(po@.skip(i as int)[0] == po@[i as int]);
        if str_eq(po[i].0.as_str(), b) {
            return match &po[i].1 {
                Some(p) => Some(copy_str(p.as_str())),
                None => None,
            };
        }
        assert(po@.skip(i as int).drop_first() =~= po@.skip(i + 1));
        i += 1;
    }
    None
}

/// Whether `b` is held back by a lock above it.
pub fn is_held_back(po: &Vec<(String, Option<String>)>, locked: &Vec<String>, b: &str) -> (r: bool)
    ensures
        r == held_back(po@, sviews(locked@), b@),
{
    if has_string(locked, b) {
        return false;
    }
    let n = po.len();
    let mut cur = copy_str(b);
    let mut steps: usize = 0;
    while steps < n
        invariant
            steps <= n == po@.len(),
            !sviews(locked@).contains(b@),
            under_locked(po@, sviews(locked@), b@, n as nat) == under_locked(po@, sviews(locked@), cur@, (n - steps) as nat),
        decreases n - steps,
    {
        match parent_of_branch(po, cur.as_str()) {
            None => {
                return false;
            },
            Some(p) => {
                assert(under_locked(po@, sviews(locked@), cur@, (n - steps) as nat)
                    == (sviews(locked@).contains(p@) || under_locked(po@, sviews(locked@), p@, (n - steps - 1) as nat)));
                if has_string(locked, p.as_str()) {
                    return true;
                }
                cur = p;
            },
        }
        steps += 1;
    }
    false
}

/// The branches held back by a lock above them (each once, in the order they
/// first appear in `parent_of`): those whose chain of parents meets a locked
/// branch. The locked branches themselves are not among them.
pub fn locked_subtree(locked: &Vec<String>, parent_of: &Vec<(String, Option<String>)>) -> (r: Vec<String>)
    ensures
        forall|x: Seq<char>| sviews(r@).contains(x) <==> (exists|i: int| 0 <= i < parent_of@.len() && (#[trigger] parent_of@[i]).0@ == x)
            && held_back(parent_of@, sviews(locked@), x),
        forall|i: int, j: int| 0 <= i < j < r@.len() ==> (#[trigger] r@[i])@ != (#[trigger] r@[j])@,
{
    let mut r: Vec<String> = Vec::new();
    let mut i: usize = 0;
    while i < parent_of.len()
        invariant
            i <= parent_of@.len(),
            forall|x: Seq<char>| sviews(r@).contains(x) <==> (exists|k: int| 0 <= k < i && (#[trigger] parent_of@[k]).0@ == x)
                && held_back(parent_of@, sviews(locked@), x),
            forall|p: int, q: int| 0 <= p < q < r@.len() ==> (#[trigger] r@[p])@ != (#[trigger] r@[q])@,
        decreases parent_of@.len() - i,
    {
        let b = parent_of[i].0.as_str();
        let ghost before = r@;
        if is_held_back(parent_of, locked, b) && !has_string(&r, b) {
            r.push(copy_str(b));
            proof {
                assert(sviews(r@) =~= sviews(before).push(b@));
                assert forall|p: int, q: int| 0 <= p < q < r@.len() implies (#[trigger] r@[p])@ != (#[trigger] r@[q])@ by {
                    if q == r@.len() - 1 {
                        assert(sviews(before)[p] == r@[p]@);
                    }
                }
            }
        }
        proof {
            assert forall|x: Seq<char>| sviews(r@).contains(x) <==> (exists|k: int| 0 <= k < i + 1 && (#[trigger] parent_of@[k]).0@ == x)
                && held_back(parent_of@, sviews(locked@), x) by {
                if sviews(r@).contains(x) && x != b@ {
                    assert(sviews(before).contains(x)) by {
                        let j = choose|j: int| 0 <= j < sviews(r@).len() && sviews(r@)[j] == x;
                        if j < before.len() {
                            assert(sviews(before)[j] == x);
                        }
                    }
                }
                if x == b@ && held_back(parent_of@, sviews(locked@), x) {
                    if !sviews(before).contains(x) {
                        assert(sviews(r@)[r@.len() - 1] == x);
                    } else {
                        let j = choose|j: int| 0 <= j < sviews(before).len() && sviews(before)[j] == x;
                        assert(sviews(r@)[j] == x);
                    }
                }
                if sviews(before).contains(x) {
                    let j = choose|j: int| 0 <= j < sviews(before).len() && sviews(before)[j] == x;
                    assert(sviews(r@)[j] == x);
                }
            }
        }
        i += 1;
    }
    r
}


/// `s` without the separators at its end (a lone separator stays).
pub open spec fn strip_trailing_slashes(s: Seq<char>) -> Seq<char>
    decreases s.len(),
{
    if s.len() > 1 && s.last() == '/' {
        strip_trailing_slashes(s.drop_last())
    } else {
        s
    }
}

/// Where the worktree of `branch` lives: beside the repository at `root`, in a
/// directory named after it with `-worktrees` appended.
pub open spec fn worktree_path_of(root: Seq<char>, branch: Seq<char>) -> Seq<char> {
    strip_trailing_slashes(root) + "-worktrees/"@ + branch
}

pub fn worktree_path(root: &str, branch: &str) -> (r: String)
    ensures
        r@ == worktree_path_of(root@, branch@),
{
    let v = crate::text::chars_of(root);
    let mut e: usize = v.len();
    assert(v@.take(e as int) =~= v@);
    while e > 1 && v[e - 1] == '/'
        invariant
            e <= v@.len(),
            strip_trailing_slashes(v@) == strip_trailing_slashes(v@.take(e as int)),
        decreases e,
    {
        assert(v@.take(e as int).drop_last() =~= v@.take(e - 1));
        e -= 1;
    }
    let mut r = crate::text::string_of_range(&v, 0, e);
    assert(v@.subrange(0, e as int) =~= v@.take(e as int));
    crate::text::push_str(&mut r, "-worktrees/");
    crate::text::push_str(&mut r, branch);
    r
}

} // verus!
