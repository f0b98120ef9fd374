//! Sums over the entries of a finite map.
use vstd::prelude::*;

verus! {

/// The sum of `f` over every entry of `m`.
pub open spec fn sum<K, V>(m: Map<K, V>, f: spec_fn(K, V) -> int) -> int
    decreases m.dom().len(),
    when m.dom().finite()
{
    if m.dom().len() == 0 {
        0
    } else {
        let k = m.dom().choose();
        f(k, m[k]) + sum(m.remove(k), f)
    }
}

/// Any present key can be split off a sum.
pub proof fn lemma_sum_split<K, V>(m: Map<K, V>, f: spec_fn(K, V) -> int, k: K)
    requires
        m.dom().finite(),
        m.dom().contains(k),
    ensures
        sum(m, f) == f(k, m[k]) + sum(m.remove(k), f),
    decreases m.dom().len(),
{
    let c = m.dom().choose();
    assert(m.dom().len() != 0) by {
        if m.dom().len() == 0 {
            assert(m.dom() =~= Set::empty());
        }
    }
    if c != k {
        assert(m.remove(c).dom() =~= m.dom().remove(c));
        assert(m.remove(k).dom() =~= m.dom().remove(k));
        lemma_sum_split(m.remove(c), f, k);
        lemma_sum_split(m.remove(k), f, c);
        assert(m.remove(c).remove(k) =~= m.remove(k).remove(c));
    }
}

pub proof fn lemma_sum_empty<K, V>(f: spec_fn(K, V) -> int)
    ensures
        sum(Map::<K, V>::empty(), f) == 0,
{
    assert(Map::<K, V>::empty().dom().len() == 0);
}

/// Writing one entry changes a sum by what that entry gains.
pub proof fn lemma_sum_insert<K, V>(m: Map<K, V>, f: spec_fn(K, V) -> int, k: K, v: V)
    requires
        m.dom().finite(),
    ensures
        sum(m.insert(k, v), f) == sum(m, f) + f(k, v) - (if m.dom().contains(k) {
            f(k, m[k])
        } else {
            0
        }),
{
    let n = m.insert(k, v);
    assert(n.dom() =~= m.dom().insert(k));
    lemma_sum_split(n, f, k);
    assert(n.remove(k) =~= m.remove(k));
    if m.dom().contains(k) {
        lemma_sum_split(m, f, k);
    } else {
        assert(m.remove(k) =~= m);
    }
}

/// Removing one entry takes its share out of a sum.
pub proof fn lemma_sum_remove<K, V>(m: Map<K, V>, f: spec_fn(K, V) -> int, k: K)
    requires
        m.dom().finite(),
    ensures
        sum(m.remove(k), f) == sum(m, f) - (if m.dom().contains(k) {
            f(k, m[k])
        } else {
            0
        }),
{
    if m.dom().contains(k) {
        lemma_sum_split(m, f, k);
    } else {
        assert(m.remove(k) =~= m);
    }
}

/// A sum of non-negative shares is non-negative and covers each share.
pub proof fn lemma_sum_covers<K, V>(m: Map<K, V>, f: spec_fn(K, V) -> int)
    requires
        m.dom().finite(),
        forall|k: K| m.dom().contains(k) ==> #[trigger] f(k, m[k]) >= 0,
    ensures
        sum(m, f) >= 0,
        forall|k: K| m.dom().contains(k) ==> #[trigger] f(k, m[k]) <= sum(m, f),
    decreases m.dom().len(),
{
    if m.dom().len() != 0 {
        let c = m.dom().choose();
        let rest = m.remove(c);
        assert(m.dom().contains(c));
        assert(f(c, m[c]) >= 0);
        assert forall|k: K| rest.dom().contains(k) implies #[trigger] f(k, rest[k]) >= 0 by {
            assert(f(k, m[k]) >= 0);
        }
        lemma_sum_covers(rest, f);
        assert forall|k: K| m.dom().contains(k) implies #[trigger] f(k, m[k]) <= sum(m, f) by {
            if k != c {
                assert(rest.dom().contains(k));
                assert(f(k, rest[k]) <= sum(rest, f));
            }
        }
    } else {
        assert(m.dom() =~= Set::empty());
    }
}

/// Where every share is zero so is the sum.
pub proof fn lemma_sum_zero<K, V>(m: Map<K, V>, f: spec_fn(K, V) -> int)
    requires
        m.dom().finite(),
        forall|k: K| m.dom().contains(k) ==> #[trigger] f(k, m[k]) == 0,
    ensures
        sum(m, f) == 0,
    decreases m.dom().len(),
{
    if m.dom().len() != 0 {
        let c = m.dom().choose();
        let rest = m.remove(c);
        assert(f(c, m[c]) == 0);
        assert forall|k: K| rest.dom().contains(k) implies #[trigger] f(k, rest[k]) == 0 by {
            assert(f(k, m[k]) == 0);
        }
        lemma_sum_zero(rest, f);
    }
}

/// Two share functions that agree on every entry have the same sum.
pub proof fn lemma_sum_same<K, V>(
    m: Map<K, V>,
    f: spec_fn(K, V) -> int,
    g: spec_fn(K, V) -> int,
)
    requires
        m.dom().finite(),
        forall|k: K| m.dom().contains(k) ==> #[trigger] f(k, m[k]) == g(k, m[k]),
    ensures
        sum(m, f) == sum(m, g),
    decreases m.dom().len(),
{
    if m.dom().len() != 0 {
        let c = m.dom().choose();
        let rest = m.remove(c);
        assert(f(c, m[c]) == g(c, m[c]));
        assert forall|k: K| rest.dom().contains(k) implies #[trigger] f(k, rest[k]) == g(
            k,
            rest[k],
        ) by {
            assert(f(k, m[k]) == g(k, m[k]));
        }
        lemma_sum_same(rest, f, g);
    }
}

} // verus!
