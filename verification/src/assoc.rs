//! Finite maps kept as lists of key/value pairs with distinct keys, and
//! where one key stands relative to another.
use vstd::prelude::*;

verus! {

/// Where one key stands relative to another in the order of keys.
#[derive(Clone, Copy, Debug, PartialEq, Eq, Structural)]
pub enum Order {
    Before,
    Same,
    After,
}

/// The map that a list of pairs stands for (a later pair overrides an
/// earlier one with the same key).
pub open spec fn pairs_map<K, V>(s: Seq<(K, V)>) -> Map<K, V>
    decreases s.len(),
{
    if s.len() == 0 {
        Map::empty()
    } else {
        pairs_map(s.drop_last()).insert(s.last().0, s.last().1)
    }
}

/// No two pairs of the list have the same key.
pub open spec fn keys_distinct<K, V>(s: Seq<(K, V)>) -> bool {
    forall|i: int, j: int| 0 <= i < j < s.len() ==> #[trigger] s[i].0 != #[trigger] s[j].0
}

/// A key is in the map exactly when some pair has it.
pub proof fn lemma_pairs_map_dom<K, V>(s: Seq<(K, V)>, k: K)
    ensures
        pairs_map(s).contains_key(k) <==> exists|i: int| 0 <= i < s.len() && #[trigger] s[i].0 == k,
    decreases s.len(),
{
    if s.len() > 0 {
        lemma_pairs_map_dom(s.drop_last(), k);
        if pairs_map(s).contains_key(k) {
            if k == s.last().0 {
                assert(s[s.len() - 1].0 == k);
            } else {
                let i = choose|i: int| 0 <= i < s.drop_last().len() && #[trigger] s.drop_last()[i].0 == k;
                assert(s[i].0 == k);
            }
        }
        if exists|i: int| 0 <= i < s.len() && #[trigger] s[i].0 == k {
            let i = choose|i: int| 0 <= i < s.len() && #[trigger] s[i].0 == k;
            if i < s.len() - 1 {
                assert(s.drop_last()[i].0 == k);
            }
        }
    }
}

/// With distinct keys, each pair's key maps to that pair's value.
pub proof fn lemma_pairs_map_value<K, V>(s: Seq<(K, V)>, i: int)
    requires
        keys_distinct(s),
        0 <= i < s.len(),
    ensures
        pairs_map(s).contains_key(s[i].0),
        pairs_map(s)[s[i].0] == s[i].1,
    decreases s.len(),
{
    if i < s.len() - 1 {
        assert(keys_distinct(s.drop_last())) by {
            assert forall|a: int, b: int| 0 <= a < b < s.drop_last().len() implies
                #[trigger] s.drop_last()[a].0 != #[trigger] s.drop_last()[b].0 by {
                assert(s[a].0 != s[b].0);
            }
        }
        lemma_pairs_map_value(s.drop_last(), i);
        assert(s[i].0 != s[s.len() - 1].0);
        assert(s.drop_last()[i] == s[i]);
    }
}

/// Replacing the value of a pair replaces the value in the map.
pub proof fn lemma_pairs_map_update<K, V>(s: Seq<(K, V)>, i: int, v: V)
    requires
        0 <= i < s.len(),
        keys_distinct(s),
    ensures
        pairs_map(s.update(i, (s[i].0, v))) == pairs_map(s).insert(s[i].0, v),
        keys_distinct(s.update(i, (s[i].0, v))),
    decreases s.len(),
{
    let t = s.update(i, (s[i].0, v));
    assert(keys_distinct(t)) by {
        assert forall|a: int, b: int| 0 <= a < b < t.len() implies #[trigger] t[a].0 != #[trigger] t[b].0 by {
            assert(t[a].0 == s[a].0);
            assert(t[b].0 == s[b].0);
        }
    }
    assert(keys_distinct(s.drop_last())) by {
        assert forall|a: int, b: int| 0 <= a < b < s.drop_last().len() implies
            #[trigger] s.drop_last()[a].0 != #[trigger] s.drop_last()[b].0 by {
            assert(s[a].0 != s[b].0);
        }
    }
    if i == s.len() - 1 {
        assert(t.drop_last() =~= s.drop_last());
        assert(pairs_map(t) =~= pairs_map(s).insert(s[i].0, v));
    } else {
        lemma_pairs_map_update(s.drop_last(), i, v);
        assert(t.drop_last() =~= s.drop_last().update(i, (s[i].0, v)));
        assert(t.last() == s.last());
        assert(s[i].0 != s.last().0);
        assert(pairs_map(t) =~= pairs_map(s).insert(s[i].0, v));
    }
}

/// With distinct keys, the map has as many keys as the list has pairs.
pub proof fn lemma_pairs_map_len<K, V>(s: Seq<(K, V)>)
    requires
        keys_distinct(s),
    ensures
        pairs_map(s).dom().finite(),
        pairs_map(s).len() == s.len(),
    decreases s.len(),
{
    if s.len() > 0 {
        let p = s.drop_last();
        assert(keys_distinct(p)) by {
            assert forall|a: int, b: int| 0 <= a < b < p.len() implies #[trigger] p[a].0 != #[trigger] p[b].0 by {
                assert(s[a].0 != s[b].0);
            }
        }
        lemma_pairs_map_len(p);
        lemma_pairs_map_dom(p, s.last().0);
        if pairs_map(p).contains_key(s.last().0) {
            let i = choose|i: int| 0 <= i < p.len() && #[trigger] p[i].0 == s.last().0;
            assert(s[i].0 != s[s.len() - 1].0);
        }
    }
}

/// Putting a pair with a new key anywhere in the list adds it to the map.
pub proof fn lemma_pairs_map_insert_new<K, V>(s: Seq<(K, V)>, i: int, k: K, v: V)
    requires
        keys_distinct(s),
        0 <= i <= s.len(),
        forall|j: int| 0 <= j < s.len() ==> #[trigger] s[j].0 != k,
    ensures
        keys_distinct(s.insert(i, (k, v))),
        pairs_map(s.insert(i, (k, v))) == pairs_map(s).insert(k, v),
{
    let t = s.insert(i, (k, v));
    assert(keys_distinct(t)) by {
        assert forall|a: int, b: int| 0 <= a < b < t.len() implies #[trigger] t[a].0 != #[trigger] t[b].0 by {
            let sa = if a < i { a } else { a - 1 };
            let sb = if b < i { b } else { b - 1 };
            if a != i && b != i {
                assert(t[a] == s[sa]);
                assert(t[b] == s[sb]);
                assert(s[sa].0 != s[sb].0);
            } else if a == i {
                assert(t[b] == s[sb]);
            } else {
                assert(t[a] == s[sa]);
            }
        }
    }
    assert forall|q: K| #[trigger] pairs_map(t).contains_key(q) == pairs_map(s).insert(k, v).contains_key(q) by {
        lemma_pairs_map_dom(t, q);
        lemma_pairs_map_dom(s, q);
        if exists|j: int| 0 <= j < t.len() && #[trigger] t[j].0 == q {
            let j = choose|j: int| 0 <= j < t.len() && #[trigger] t[j].0 == q;
            if j < i {
                assert(s[j].0 == q);
            } else if j > i {
                assert(s[j - 1].0 == q);
            }
        }
        if exists|j: int| 0 <= j < s.len() && #[trigger] s[j].0 == q {
            let j = choose|j: int| 0 <= j < s.len() && #[trigger] s[j].0 == q;
            if j < i {
                assert(t[j].0 == q);
            } else {
                assert(t[j + 1].0 == q);
            }
        }
        assert(t[i].0 == k);
    }
    assert forall|q: K| #[trigger] pairs_map(t).contains_key(q) implies pairs_map(t)[q] == pairs_map(s).insert(k, v)[q] by {
        lemma_pairs_map_dom(t, q);
        let j = choose|j: int| 0 <= j < t.len() && #[trigger] t[j].0 == q;
        lemma_pairs_map_value(t, j);
        if j < i {
            assert(t[j] == s[j]);
            lemma_pairs_map_value(s, j);
        } else if j > i {
            assert(t[j] == s[j - 1]);
            lemma_pairs_map_value(s, j - 1);
        }
    }
    assert(pairs_map(t) =~= pairs_map(s).insert(k, v));
}

} // verus!
