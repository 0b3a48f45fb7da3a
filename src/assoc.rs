//! Association lists with distinct keys, seen as maps.

use vstd::prelude::*;

verus! {

/// The map that a list of pairs with distinct keys stands for.
pub open spec fn assoc<K, V>(s: Seq<(K, V)>) -> Map<K, V>
    decreases s.len(),
{
    if s.len() == 0 {
        Map::empty()
    } else {
        assoc(s.drop_last()).insert(s.last().0, s.last().1)
    }
}

pub open spec fn keys_unique<K, V>(s: Seq<(K, V)>) -> bool {
    forall|i: int, j: int| 0 <= i < j < s.len() ==> s[i].0 != s[j].0
}

/// Adds `a` to the value at `k`, a missing value counting as zero.
pub open spec fn plus<K>(m: Map<K, int>, k: K, a: int) -> Map<K, int> {
    m.insert(k, (if m.contains_key(k) { m[k] } else { 0 }) + a)
}

pub proof fn lemma_assoc_has<K, V>(s: Seq<(K, V)>, k: K)
    requires
        keys_unique(s),
    ensures
        assoc(s).contains_key(k) <==> exists|i: int| 0 <= i < s.len() && s[i].0 == k,
        forall|i: int| 0 <= i < s.len() && s[i].0 == k ==> assoc(s)[k] == s[i].1,
    decreases s.len(),
{
    if s.len() > 0 {
        let t = s.drop_last();
        assert(keys_unique(t));
        lemma_assoc_has(t, k);
        if assoc(s).contains_key(k) && k != s.last().0 {
            let i = choose|i: int| 0 <= i < t.len() && t[i].0 == k;
            assert(s[i] == t[i]);
        }
        if exists|i: int| 0 <= i < s.len() && s[i].0 == k {
            let i = choose|i: int| 0 <= i < s.len() && s[i].0 == k;
            if i < s.len() - 1 {
                assert(s[i] == t[i]);
            }
        }
        assert forall|i: int| 0 <= i < s.len() && s[i].0 == k implies assoc(s)[k] == s[i].1 by {
            if i < s.len() - 1 {
                assert(s[i] == t[i]);
            }
        }
    }
}

pub proof fn lemma_assoc_update<K, V>(s: Seq<(K, V)>, j: int, v: V)
    requires
        keys_unique(s),
        0 <= j < s.len(),
    ensures
        assoc(s.update(j, (s[j].0, v))) == assoc(s).insert(s[j].0, v),
        keys_unique(s.update(j, (s[j].0, v))),
    decreases s.len(),
{
    let k = s[j].0;
    let u = s.update(j, (k, v));
    if j == s.len() - 1 {
        assert(u.drop_last() =~= s.drop_last());
        assert(assoc(s).insert(k, v) =~= assoc(s.drop_last()).insert(k, v));
    } else {
        let t = s.drop_last();
        assert(keys_unique(t));
        lemma_assoc_update(t, j, v);
        assert(u.drop_last() =~= t.update(j, (k, v)));
        assert(s.last().0 != k);
        assert(assoc(u) =~= assoc(s).insert(k, v));
    }
    assert(keys_unique(u));
}

pub proof fn lemma_assoc_push<K, V>(s: Seq<(K, V)>, k: K, v: V)
    requires
        keys_unique(s),
        !assoc(s).contains_key(k),
    ensures
        assoc(s.push((k, v))) == assoc(s).insert(k, v),
        keys_unique(s.push((k, v))),
{
    lemma_assoc_has(s, k);
    assert(s.push((k, v)).drop_last() =~= s);
}


pub open spec fn has_key<K, V>(s: Seq<(K, V)>, k: K) -> bool {
    exists|i: int| 0 <= i < s.len() && s[i].0 == k
}

/// Where key `k` stands, when it does.
pub open spec fn index_of<K, V>(s: Seq<(K, V)>, k: K) -> int {
    choose|i: int| 0 <= i < s.len() && s[i].0 == k
}

pub open spec fn lookup<K, V>(s: Seq<(K, V)>, k: K) -> V {
    s[index_of(s, k)].1
}

/// Sets the value of `k` where it stands, or appends it.
pub open spec fn upsert<K, V>(s: Seq<(K, V)>, k: K, v: V) -> Seq<(K, V)> {
    if has_key(s, k) {
        s.update(index_of(s, k), (k, v))
    } else {
        s.push((k, v))
    }
}

pub proof fn lemma_index_of_unique<K, V>(s: Seq<(K, V)>, k: K, j: int)
    requires
        keys_unique(s),
        0 <= j < s.len(),
        s[j].0 == k,
    ensures
        has_key(s, k),
        index_of(s, k) == j,
{
    assert(0 <= j < s.len() && s[j].0 == k);
}

pub proof fn lemma_upsert_unique<K, V>(s: Seq<(K, V)>, k: K, v: V)
    requires
        keys_unique(s),
    ensures
        keys_unique(upsert(s, k, v)),
        has_key(upsert(s, k, v), k),
        lookup(upsert(s, k, v), k) == v,
        upsert(s, k, v).len() >= s.len(),
        forall|k2: K| k2 != k ==> (has_key(upsert(s, k, v), k2) == has_key(s, k2)),
        forall|k2: K| k2 != k && has_key(s, k2) ==> lookup(upsert(s, k, v), k2) == lookup(s, k2),
{
    let u = upsert(s, k, v);
    if has_key(s, k) {
        let j = index_of(s, k);
        assert(keys_unique(u));
        lemma_index_of_unique(u, k, j);
        assert forall|k2: K| k2 != k implies (has_key(u, k2) == has_key(s, k2)) by {
            if has_key(s, k2) {
                let i = index_of(s, k2);
                assert(u[i].0 == k2);
            }
            if has_key(u, k2) {
                let i = index_of(u, k2);
                assert(s[i].0 == k2);
            }
        }
        assert forall|k2: K| k2 != k && has_key(s, k2) implies lookup(u, k2) == lookup(s, k2) by {
            let i = index_of(s, k2);
            assert(u[i].0 == k2);
            lemma_index_of_unique(u, k2, i);
        }
    } else {
        assert(keys_unique(u)) by {
            assert forall|i: int, j: int| 0 <= i < j < u.len() implies u[i].0 != u[j].0 by {
                if j == s.len() {
                    assert(s[i].0 != k);
                }
            }
        }
        lemma_index_of_unique(u, k, s.len() as int);
        assert forall|k2: K| k2 != k implies (has_key(u, k2) == has_key(s, k2)) by {
            if has_key(s, k2) {
                let i = index_of(s, k2);
                assert(u[i].0 == k2);
            }
            if has_key(u, k2) {
                let i = index_of(u, k2);
                assert(s[i].0 == k2);
            }
        }
        assert forall|k2: K| k2 != k && has_key(s, k2) implies lookup(u, k2) == lookup(s, k2) by {
            let i = index_of(s, k2);
            assert(u[i].0 == k2);
            lemma_index_of_unique(u, k2, i);
        }
    }
}

/// Setting a key to the value it already has changes nothing.
pub proof fn lemma_upsert_same<K, V>(s: Seq<(K, V)>, k: K, v: V)
    requires
        keys_unique(s),
        has_key(s, k),
        lookup(s, k) == v,
    ensures
        upsert(s, k, v) == s,
{
    let j = index_of(s, k);
    assert(upsert(s, k, v) =~= s);
}

} // verus!
