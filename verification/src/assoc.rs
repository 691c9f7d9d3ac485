//! Maps kept as sequences of pairs in which no key stands twice.

use vstd::prelude::*;

verus! {

/// The map that a sequence of pairs stands for; of two pairs with the same key
/// the later one counts.
pub open spec fn assoc<K, V>(e: Seq<(K, V)>) -> Map<K, V>
    decreases e.len(),
{
    if e.len() == 0 {
        Map::empty()
    } else {
        assoc(e.drop_last()).insert(e.last().0, e.last().1)
    }
}

/// No key stands twice.
pub open spec fn distinct<K, V>(e: Seq<(K, V)>) -> bool {
    forall|i: int, j: int| 0 <= i < j < e.len() ==> (#[trigger] e[i]).0 != (#[trigger] e[j]).0
}

/// The domain of the map is the keys of the pairs.
pub proof fn lemma_assoc_domain<K, V>(e: Seq<(K, V)>, k: K)
    ensures
        assoc(e).contains_key(k) <==> exists|i: int| 0 <= i < e.len() && (#[trigger] e[i]).0 == k,
    decreases e.len(),
{
    if e.len() > 0 {
        let init = e.drop_last();
        lemma_assoc_domain(init, k);
        if assoc(init).contains_key(k) {
            let i = choose|i: int| 0 <= i < init.len() && (#[trigger] init[i]).0 == k;
            assert(e[i].0 == k);
        }
        if exists|i: int| 0 <= i < e.len() && (#[trigger] e[i]).0 == k {
            let i = choose|i: int| 0 <= i < e.len() && (#[trigger] e[i]).0 == k;
            if i < init.len() {
                assert(init[i].0 == k);
            }
        }
        if e.last().0 == k {
            assert(e[e.len() - 1].0 == k);
        }
    }
}

/// Where no key stands twice, each pair is in the map.
pub proof fn lemma_assoc_value<K, V>(e: Seq<(K, V)>, i: int)
    requires
        distinct(e),
        0 <= i < e.len(),
    ensures
        assoc(e).contains_key(e[i].0),
        assoc(e)[e[i].0] == e[i].1,
    decreases e.len(),
{
    let init = e.drop_last();
    assert(distinct(init)) by {
        assert forall|a: int, b: int| 0 <= a < b < init.len() implies (#[trigger] init[a]).0 != (
        #[trigger] init[b]).0 by {
            assert(e[a].0 != e[b].0);
        }
    }
    if i < init.len() {
        lemma_assoc_value(init, i);
        assert(init[i] == e[i]);
        assert(e[i].0 != e[e.len() - 1].0);
    }
}

/// Where no key stands twice, the map has as many keys as there are pairs.
pub proof fn lemma_assoc_len<K, V>(e: Seq<(K, V)>)
    requires
        distinct(e),
    ensures
        assoc(e).dom().finite(),
        assoc(e).dom().len() == e.len(),
    decreases e.len(),
{
    if e.len() > 0 {
        let init = e.drop_last();
        assert(distinct(init)) by {
            assert forall|a: int, b: int| 0 <= a < b < init.len() implies (#[trigger] init[a]).0
                != (#[trigger] init[b]).0 by {
                assert(e[a].0 != e[b].0);
            }
        }
        lemma_assoc_len(init);
        lemma_assoc_domain(init, e.last().0);
        if assoc(init).contains_key(e.last().0) {
            let i = choose|i: int| 0 <= i < init.len() && (#[trigger] init[i]).0 == e.last().0;
            assert(e[i].0 == e[e.len() - 1].0);
        }
    }
}

/// Appending a pair with a new key keeps the keys distinct and inserts into
/// the map.
pub proof fn lemma_assoc_push<K, V>(e: Seq<(K, V)>, k: K, v: V)
    requires
        distinct(e),
        !assoc(e).contains_key(k),
    ensures
        distinct(e.push((k, v))),
        assoc(e.push((k, v))) == assoc(e).insert(k, v),
{
    let f = e.push((k, v));
    assert(f.drop_last() =~= e);
    lemma_assoc_domain(e, k);
    assert forall|a: int, b: int| 0 <= a < b < f.len() implies (#[trigger] f[a]).0 != (#[trigger]
    f[b]).0 by {
        if b < e.len() {
            assert(e[a].0 != e[b].0);
        } else {
            assert(e[a].0 != k);
        }
    }
}

/// Replacing the value of a pair keeps the keys distinct and inserts into the
/// map.
pub proof fn lemma_assoc_update<K, V>(e: Seq<(K, V)>, i: int, v: V)
    requires
        distinct(e),
        0 <= i < e.len(),
    ensures
        distinct(e.update(i, (e[i].0, v))),
        assoc(e.update(i, (e[i].0, v))) == assoc(e).insert(e[i].0, v),
{
    let f = e.update(i, (e[i].0, v));
    assert forall|a: int, b: int| 0 <= a < b < f.len() implies (#[trigger] f[a]).0 != (#[trigger]
    f[b]).0 by {
        assert(e[a].0 != e[b].0);
    }
    assert forall|k: K| #[trigger] assoc(f).contains_key(k) <==> assoc(e).insert(
        e[i].0,
        v,
    ).contains_key(k) by {
        lemma_assoc_domain(e, k);
        lemma_assoc_domain(f, k);
        if assoc(f).contains_key(k) {
            let j = choose|j: int| 0 <= j < f.len() && (#[trigger] f[j]).0 == k;
            assert(e[j].0 == k);
        }
        if assoc(e).contains_key(k) {
            let j = choose|j: int| 0 <= j < e.len() && (#[trigger] e[j]).0 == k;
            assert(f[j].0 == k);
        }
        if k == e[i].0 {
            assert(f[i].0 == k);
        }
    }
    assert forall|k: K| #[trigger] assoc(f).contains_key(k) implies assoc(f)[k] == assoc(e).insert(
        e[i].0,
        v,
    )[k] by {
        lemma_assoc_domain(f, k);
        let j = choose|j: int| 0 <= j < f.len() && (#[trigger] f[j]).0 == k;
        lemma_assoc_value(f, j);
        lemma_assoc_value(e, j);
        if j != i {
            if j < i {
                assert(e[j].0 != e[i].0);
            } else {
                assert(e[i].0 != e[j].0);
            }
        }
    }
    assert(assoc(f) =~= assoc(e).insert(e[i].0, v));
}

/// Dropping a pair keeps the keys distinct and removes from the map.
pub proof fn lemma_assoc_remove<K, V>(e: Seq<(K, V)>, i: int)
    requires
        distinct(e),
        0 <= i < e.len(),
    ensures
        distinct(e.remove(i)),
        assoc(e.remove(i)) == assoc(e).remove(e[i].0),
{
    let f = e.remove(i);
    assert forall|a: int, b: int| 0 <= a < b < f.len() implies (#[trigger] f[a]).0 != (#[trigger]
    f[b]).0 by {
        let p = if a < i {
            a
        } else {
            a + 1
        };
        let q = if b < i {
            b
        } else {
            b + 1
        };
        assert(e[p].0 != e[q].0);
    }
    assert forall|k: K| #[trigger] assoc(f).contains_key(k) <==> assoc(e).remove(
        e[i].0,
    ).contains_key(k) by {
        lemma_assoc_domain(e, k);
        lemma_assoc_domain(f, k);
        if assoc(f).contains_key(k) {
            let j = choose|j: int| 0 <= j < f.len() && (#[trigger] f[j]).0 == k;
            let p = if j < i {
                j
            } else {
                j + 1
            };
            assert(e[p].0 == k);
            if p < i {
                assert(e[p].0 != e[i].0);
            } else {
                assert(e[i].0 != e[p].0);
            }
        }
        if assoc(e).contains_key(k) && k != e[i].0 {
            let j = choose|j: int| 0 <= j < e.len() && (#[trigger] e[j]).0 == k;
            let p = if j < i {
                j
            } else {
                j - 1
            };
            assert(f[p].0 == k);
        }
    }
    assert forall|k: K| #[trigger] assoc(f).contains_key(k) implies assoc(f)[k] == assoc(e).remove(
        e[i].0,
    )[k] by {
        lemma_assoc_domain(f, k);
        let j = choose|j: int| 0 <= j < f.len() && (#[trigger] f[j]).0 == k;
        let p = if j < i {
            j
        } else {
            j + 1
        };
        lemma_assoc_value(f, j);
        lemma_assoc_value(e, p);
        assert(assoc(e).remove(e[i].0).contains_key(k));
    }
    assert(assoc(f) =~= assoc(e).remove(e[i].0));
}

} // verus!
