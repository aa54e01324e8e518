//! Keyed vectors and their first-match semantics.
//!
//! The crawler's shared catalogues (address book, peer ledger, version
//! cache, session registry) are association vectors.  `idx_of` gives
//! the index of the first entry with a key, and the lemmas here say how
//! it moves under lookup, in-place update and insertion.

use vstd::prelude::*;

verus! {

use crate::text::str_eq;

/// Index of the first entry of `s` whose key views as `k`, or `-1`.
pub open spec fn idx_of<V>(s: Seq<(String, V)>, k: Seq<char>) -> int
    decreases s.len(),
{
    if s.len() == 0 {
        -1
    } else if s[0].0@ == k {
        0
    } else {
        let r = idx_of(s.subrange(1, s.len() as int), k);
        if r < 0 {
            -1
        } else {
            1 + r
        }
    }
}

/// Whether some entry of `s` has key `k`.
pub open spec fn has_key<V>(s: Seq<(String, V)>, k: Seq<char>) -> bool {
    idx_of(s, k) >= 0
}

/// The value of the first entry of `s` with key `k`.
pub open spec fn val_of<V>(s: Seq<(String, V)>, k: Seq<char>) -> V
    recommends
        has_key(s, k),
{
    s[idx_of(s, k)].1
}

pub proof fn lemma_idx_of<V>(s: Seq<(String, V)>, k: Seq<char>)
    ensures
        -1 <= idx_of(s, k) < s.len(),
        idx_of(s, k) >= 0 ==> s[idx_of(s, k)].0@ == k,
        forall|j: int| 0 <= j < idx_of(s, k) ==> s[j].0@ != k,
        idx_of(s, k) < 0 ==> forall|j: int| 0 <= j < s.len() ==> s[j].0@ != k,
    decreases s.len(),
{
    if s.len() > 0 && s[0].0@ != k {
        let t = s.subrange(1, s.len() as int);
        lemma_idx_of(t, k);
        assert forall|j: int| 1 <= j < s.len() implies s[j] == t[j - 1] by {}
    }
}

/// Updating an entry in place, keeping its key, moves no index.
pub proof fn lemma_idx_of_update<V>(s: Seq<(String, V)>, i: int, p: (String, V), k: Seq<char>)
    requires
        0 <= i < s.len(),
        p.0@ == s[i].0@,
    ensures
        idx_of(s.update(i, p), k) == idx_of(s, k),
    decreases s.len(),
{
    let s2 = s.update(i, p);
    assert(s2.len() == s.len());
    if s.len() > 0 {
        if i == 0 {
            assert(s2[0].0@ == s[0].0@);
            if s[0].0@ != k {
                assert(s2.subrange(1, s2.len() as int) =~= s.subrange(1, s.len() as int));
            }
        } else {
            assert(s2[0] == s[0]);
            if s[0].0@ != k {
                let t = s.subrange(1, s.len() as int);
                let t2 = s2.subrange(1, s2.len() as int);
                assert(t2 =~= t.update(i - 1, p));
                lemma_idx_of_update(t, i - 1, p, k);
            }
        }
    }
}

/// Appending an entry leaves every present key where it was; an absent
/// key is found at the end exactly when the new entry carries it.
pub proof fn lemma_idx_of_push<V>(s: Seq<(String, V)>, p: (String, V), k: Seq<char>)
    ensures
        idx_of(s, k) >= 0 ==> idx_of(s.push(p), k) == idx_of(s, k),
        idx_of(s, k) < 0 && p.0@ == k ==> idx_of(s.push(p), k) == s.len(),
        idx_of(s, k) < 0 && p.0@ != k ==> idx_of(s.push(p), k) == -1,
    decreases s.len(),
{
    let s2 = s.push(p);
    if s.len() == 0 {
        assert(s2.len() == 1);
        assert(s2[0] == p);
        if p.0@ != k {
            assert(s2.subrange(1, 1) =~= Seq::<(String, V)>::empty());
            assert(idx_of(Seq::<(String, V)>::empty(), k) == -1);
            assert(idx_of(s2, k) == -1);
        }
    } else {
        assert(s2[0] == s[0]);
        if s[0].0@ != k {
            let t = s.subrange(1, s.len() as int);
            let t2 = s2.subrange(1, s2.len() as int);
            assert(t2 =~= t.push(p));
            lemma_idx_of_push(t, p, k);
        }
    }
}

/// Find the first entry of `pairs` keyed by `k`.
pub fn find_idx<V>(pairs: &Vec<(String, V)>, k: &str) -> (r: Option<usize>)
    ensures
        r matches Some(i) ==> i == idx_of(pairs@, k@) && i < pairs@.len() && pairs@[i as int].0@
            == k@,
        r is None ==> idx_of(pairs@, k@) == -1,
{
    proof {
        lemma_idx_of(pairs@, k@);
    }
    let n = pairs.len();
    let mut i: usize = 0;
    while i < n
        invariant
            n == pairs@.len(),
            i <= n,
            forall|j: int| 0 <= j < i ==> pairs@[j].0@ != k@,
            -1 <= idx_of(pairs@, k@) < n,
            idx_of(pairs@, k@) >= 0 ==> pairs@[idx_of(pairs@, k@)].0@ == k@,
            forall|j: int| 0 <= j < idx_of(pairs@, k@) ==> pairs@[j].0@ != k@,
            idx_of(pairs@, k@) < 0 ==> forall|j: int| 0 <= j < n ==> pairs@[j].0@ != k@,
        decreases n - i,
    {
        if str_eq(pairs[i].0.as_str(), k) {
            proof {
                if idx_of(pairs@, k@) < i {
                    assert(pairs@[idx_of(pairs@, k@)].0@ == k@);
                }
            }
            return Some(i);
        }
        i = i + 1;
    }
    None
}

} // verus!
