use vstd::prelude::*;

verus! {

/// The map that a list of key-value pairs stands for; a later pair wins
/// over an earlier one with the same key.
pub open spec fn assoc_map<K, V>(s: Seq<(K, V)>) -> Map<K, V>
    decreases s.len(),
{
    if s.len() == 0 {
        Map::empty()
    } else {
        assoc_map(s.drop_last()).insert(s.last().0, s.last().1)
    }
}

/// No key occurs twice.
pub open spec fn unique_keys<K, V>(s: Seq<(K, V)>) -> bool {
    forall|i: int, j: int| 0 <= i < j < s.len() ==> s[i].0 != s[j].0
}

/// The keys of the pairs.
pub open spec fn keys_of<K, V>(s: Seq<(K, V)>) -> Seq<K> {
    s.map_values(|p: (K, V)| p.0)
}

/// The map holds exactly the listed keys, each with its listed value.
pub proof fn lemma_assoc_lookup<K, V>(s: Seq<(K, V)>)
    requires
        unique_keys(s),
    ensures
        forall|k: K| #[trigger] assoc_map(s).contains_key(k) <==> keys_of(s).contains(k),
        forall|i: int| 0 <= i < s.len() ==> #[trigger] assoc_map(s)[s[i].0] == s[i].1,
        assoc_map(s).dom().finite(),
    decreases s.len(),
{
    if s.len() > 0 {
        let p = s.drop_last();
        lemma_assoc_lookup(p);
        assert forall|k: K| #[trigger] assoc_map(s).contains_key(k) <==> keys_of(s).contains(k) by {
            if keys_of(s).contains(k) {
                let i = choose|i: int| 0 <= i < keys_of(s).len() && keys_of(s)[i] == k;
                if i < p.len() {
                    assert(keys_of(p)[i] == k);
                }
            }
            if keys_of(p).contains(k) {
                let i = choose|i: int| 0 <= i < keys_of(p).len() && keys_of(p)[i] == k;
                assert(keys_of(s)[i] == k);
            }
            if k == s.last().0 {
                assert(keys_of(s)[s.len() - 1] == k);
            }
        }
        assert forall|i: int| 0 <= i < s.len() implies #[trigger] assoc_map(s)[s[i].0] == s[i].1 by {
            if i < s.len() - 1 {
                assert(p[i] == s[i]);
                assert(s[i].0 != s.last().0);
            }
        }
    }
}

/// Replacing the value of a listed key updates the map.
pub proof fn lemma_assoc_update<K, V>(s: Seq<(K, V)>, i: int, v: V)
    requires
        unique_keys(s),
        0 <= i < s.len(),
    ensures
        unique_keys(s.update(i, (s[i].0, v))),
        assoc_map(s.update(i, (s[i].0, v))) == assoc_map(s).insert(s[i].0, v),
    decreases s.len(),
{
    let t = s.update(i, (s[i].0, v));
    assert forall|a: int, b: int| 0 <= a < b < t.len() implies t[a].0 != t[b].0 by {
        assert(t[a].0 == s[a].0);
        assert(t[b].0 == s[b].0);
    }
    if i == s.len() - 1 {
        assert(t.drop_last() =~= s.drop_last());
        lemma_assoc_lookup(s.drop_last());
        assert(assoc_map(t) =~= assoc_map(s).insert(s[i].0, v));
    } else {
        let p = s.drop_last();
        assert(t.drop_last() =~= p.update(i, (s[i].0, v)));
        lemma_assoc_update(p, i, v);
        assert(s[i].0 != s.last().0);
        assert(assoc_map(t) =~= assoc_map(s).insert(s[i].0, v));
    }
}

/// Appending a pair with a new key adds it to the map.
pub proof fn lemma_assoc_push<K, V>(s: Seq<(K, V)>, k: K, v: V)
    requires
        unique_keys(s),
        !keys_of(s).contains(k),
    ensures
        unique_keys(s.push((k, v))),
        assoc_map(s.push((k, v))) == assoc_map(s).insert(k, v),
{
    let t = s.push((k, v));
    assert(t.drop_last() =~= s);
    assert forall|a: int, b: int| 0 <= a < b < t.len() implies t[a].0 != t[b].0 by {
        if b == s.len() {
            assert(keys_of(s)[a] == s[a].0);
        }
    }
}

/// Dropping a listed pair drops its key from the map.
pub proof fn lemma_assoc_remove<K, V>(s: Seq<(K, V)>, i: int)
    requires
        unique_keys(s),
        0 <= i < s.len(),
    ensures
        unique_keys(s.remove(i)),
        assoc_map(s.remove(i)) == assoc_map(s).remove(s[i].0),
    decreases s.len(),
{
    let t = s.remove(i);
    assert forall|a: int, b: int| 0 <= a < b < t.len() implies t[a].0 != t[b].0 by {
        let a0 = if a < i { a } else { a + 1 };
        let b0 = if b < i { b } else { b + 1 };
        assert(t[a] == s[a0]);
        assert(t[b] == s[b0]);
    }
    lemma_assoc_lookup(s);
    lemma_assoc_lookup(t);
    if i == s.len() - 1 {
        assert(t =~= s.drop_last());
        assert(!keys_of(t).contains(s[i].0)) by {
            if keys_of(t).contains(s[i].0) {
                let q = choose|q: int| 0 <= q < keys_of(t).len() && keys_of(t)[q] == s[i].0;
                assert(t[q] == s[q]);
            }
        }
        assert(assoc_map(t) =~= assoc_map(s).remove(s[i].0));
    } else {
        let p = s.drop_last();
        lemma_assoc_remove(p, i);
        assert(t.drop_last() =~= p.remove(i));
        assert(t.last() == s.last());
        assert(s[i].0 != s.last().0);
        assert(assoc_map(t) =~= assoc_map(s).remove(s[i].0));
    }
}

} // verus!
