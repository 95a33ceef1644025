//! A mathematical model of a keyed table of unsigned amounts.
//!
//! The ledger stores balances and allowances as sequences of entries
//! `(key, amount)`.  A key that is absent stands for the amount zero, and
//! lookup scans from the most recently added entry backwards.  Once the
//! entries carry pairwise distinct keys, lookup, update and push behave like
//! operations on a finite map with default value zero, and the sum of all
//! amounts can be tracked exactly; the lemmas below state those facts.

use vstd::prelude::*;

verus! {

/// All entries carry pairwise distinct keys.
pub open spec fn distinct_keys<K>(s: Seq<(K, u64)>) -> bool {
    forall|i: int, j: int|
        #![trigger s[i], s[j]]
        0 <= i < j < s.len() ==> s[i].0 != s[j].0
}

/// Some entry carries the key `k`.
pub open spec fn contains_key<K>(s: Seq<(K, u64)>, k: K) -> bool {
    exists|i: int| 0 <= i < s.len() && #[trigger] s[i].0 == k
}

/// The amount stored under `k`, or zero when no entry carries `k`.
pub open spec fn lookup<K>(s: Seq<(K, u64)>, k: K) -> u64
    decreases s.len(),
{
    if s.len() == 0 {
        0u64
    } else if s.last().0 == k {
        s.last().1
    } else {
        lookup(s.drop_last(), k)
    }
}

/// The sum of all amounts in the table.
pub open spec fn amount_sum<K>(s: Seq<(K, u64)>) -> int
    decreases s.len(),
{
    if s.len() == 0 {
        0int
    } else {
        amount_sum(s.drop_last()) + s.last().1
    }
}

/// A key that no entry carries looks up to zero.
pub proof fn lemma_lookup_absent<K>(s: Seq<(K, u64)>, k: K)
    requires
        !contains_key(s, k),
    ensures
        lookup(s, k) == 0,
    decreases s.len(),
{
    if s.len() > 0 {
        assert(s[s.len() - 1].0 != k);
        assert forall|i: int| 0 <= i < s.drop_last().len() implies #[trigger] s.drop_last()[i].0
            != k by {
            assert(s.drop_last()[i] == s[i]);
            assert(s[i].0 != k);
        }
        lemma_lookup_absent(s.drop_last(), k);
    }
}

/// With distinct keys, the entry at index `i` is what its key looks up to.
pub proof fn lemma_lookup_at<K>(s: Seq<(K, u64)>, i: int)
    requires
        distinct_keys(s),
        0 <= i < s.len(),
    ensures
        lookup(s, s[i].0) == s[i].1,
    decreases s.len(),
{
    if i < s.len() - 1 {
        assert(s.last() == s[s.len() - 1]);
        assert(s[i].0 != s[s.len() - 1].0);
        assert forall|m: int, n: int|
            #![trigger s.drop_last()[m], s.drop_last()[n]]
            0 <= m < n < s.drop_last().len() implies s.drop_last()[m].0 != s.drop_last()[n].0 by {
            assert(s.drop_last()[m] == s[m]);
            assert(s.drop_last()[n] == s[n]);
        }
        assert(s.drop_last()[i] == s[i]);
        lemma_lookup_at(s.drop_last(), i);
    }
}

/// Updating the amount under one key leaves every entry's key in place,
/// so distinctness of keys is preserved.
pub proof fn lemma_distinct_update<K>(s: Seq<(K, u64)>, i: int, v: u64)
    requires
        distinct_keys(s),
        0 <= i < s.len(),
    ensures
        distinct_keys(s.update(i, (s[i].0, v))),
{
    let t = s.update(i, (s[i].0, v));
    assert forall|m: int, n: int|
        #![trigger t[m], t[n]]
        0 <= m < n < t.len() implies t[m].0 != t[n].0 by {
        assert(s[m].0 != s[n].0);
        assert(t[m].0 == s[m].0);
        assert(t[n].0 == s[n].0);
    }
}

/// Updating the amount under the key at index `i` changes exactly that
/// key's lookup and no other.
pub proof fn lemma_lookup_update<K>(s: Seq<(K, u64)>, i: int, v: u64, k: K)
    requires
        distinct_keys(s),
        0 <= i < s.len(),
    ensures
        lookup(s.update(i, (s[i].0, v)), k) == if k == s[i].0 {
            v
        } else {
            lookup(s, k)
        },
    decreases s.len(),
{
    let t = s.update(i, (s[i].0, v));
    if i == s.len() - 1 {
        assert(t.last() == (s[i].0, v));
        if k != s[i].0 {
            assert(t.drop_last() =~= s.drop_last());
        }
    } else {
        assert(t.last() == s.last());
        assert(s[i].0 != s[s.len() - 1].0);
        if k == s.last().0 {
            lemma_lookup_at(s, s.len() - 1);
        } else {
            assert(t.drop_last() =~= s.drop_last().update(i, (s[i].0, v)));
            assert forall|m: int, n: int|
                #![trigger s.drop_last()[m], s.drop_last()[n]]
                0 <= m < n < s.drop_last().len() implies s.drop_last()[m].0 != s.drop_last()[n].0
                by {
                assert(s.drop_last()[m] == s[m]);
                assert(s.drop_last()[n] == s[n]);
            }
            assert(s.drop_last()[i] == s[i]);
            lemma_lookup_update(s.drop_last(), i, v, k);
        }
    }
}

/// Appending an entry with a fresh key preserves distinctness of keys.
pub proof fn lemma_distinct_push<K>(s: Seq<(K, u64)>, e: (K, u64))
    requires
        distinct_keys(s),
        !contains_key(s, e.0),
    ensures
        distinct_keys(s.push(e)),
{
    let t = s.push(e);
    assert forall|m: int, n: int|
        #![trigger t[m], t[n]]
        0 <= m < n < t.len() implies t[m].0 != t[n].0 by {
        if n == s.len() {
            assert(t[m] == s[m]);
            assert(s[m].0 != e.0);
        } else {
            assert(t[m] == s[m]);
            assert(t[n] == s[n]);
        }
    }
}

/// Appending an entry makes its key look up to its amount and changes no
/// other key's lookup.
pub proof fn lemma_lookup_push<K>(s: Seq<(K, u64)>, e: (K, u64), k: K)
    ensures
        lookup(s.push(e), k) == if k == e.0 {
            e.1
        } else {
            lookup(s, k)
        },
{
    assert(s.push(e).last() == e);
    assert(s.push(e).drop_last() =~= s);
}

/// The sum of the amounts is never negative.
pub proof fn lemma_sum_nonneg<K>(s: Seq<(K, u64)>)
    ensures
        amount_sum(s) >= 0,
    decreases s.len(),
{
    if s.len() > 0 {
        lemma_sum_nonneg(s.drop_last());
    }
}

/// Replacing the entry at index `i` shifts the sum by the difference of
/// the amounts.
pub proof fn lemma_sum_update<K>(s: Seq<(K, u64)>, i: int, e: (K, u64))
    requires
        0 <= i < s.len(),
    ensures
        amount_sum(s.update(i, e)) == amount_sum(s) - s[i].1 + e.1,
    decreases s.len(),
{
    let t = s.update(i, e);
    if i == s.len() - 1 {
        assert(t.last() == e);
        assert(t.drop_last() =~= s.drop_last());
    } else {
        assert(t.last() == s.last());
        assert(t.drop_last() =~= s.drop_last().update(i, e));
        assert(s.drop_last()[i] == s[i]);
        lemma_sum_update(s.drop_last(), i, e);
    }
}

/// Appending an entry adds its amount to the sum.
pub proof fn lemma_sum_push<K>(s: Seq<(K, u64)>, e: (K, u64))
    ensures
        amount_sum(s.push(e)) == amount_sum(s) + e.1,
{
    assert(s.push(e).last() == e);
    assert(s.push(e).drop_last() =~= s);
}

/// Each single amount is bounded by the sum of all amounts.
pub proof fn lemma_entry_le_sum<K>(s: Seq<(K, u64)>, i: int)
    requires
        0 <= i < s.len(),
    ensures
        s[i].1 <= amount_sum(s),
    decreases s.len(),
{
    if i == s.len() - 1 {
        lemma_sum_nonneg(s.drop_last());
    } else {
        assert(s.drop_last()[i] == s[i]);
        lemma_entry_le_sum(s.drop_last(), i);
    }
}

} // verus!
