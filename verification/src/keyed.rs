//! Lists of (key, value) pairs whose keys are distinct, seen as maps from
//! the keys' views to the values.
use vstd::prelude::*;

verus! {

/// The map that the pairs `s` give, the later pair winning for a repeated key.
pub open spec fn pairs_map<K: View, V>(s: Seq<(K, V)>) -> Map<K::V, V>
    decreases s.len(),
{
    if s.len() == 0 {
        Map::empty()
    } else {
        pairs_map(s.drop_last()).insert(s.last().0@, s.last().1)
    }
}

/// No two pairs of `s` have keys with the same view.
pub open spec fn keys_distinct<K: View, V>(s: Seq<(K, V)>) -> bool {
    forall|i: int, j: int| 0 <= i < j < s.len() ==> s[i].0@ != s[j].0@
}

pub proof fn lemma_pairs_map_dom<K: View, V>(s: Seq<(K, V)>, k: K::V)
    ensures
        pairs_map(s).contains_key(k) <==> exists|i: int| 0 <= i < s.len() && s[i].0@ == k,
    decreases s.len(),
{
    if s.len() > 0 {
        lemma_pairs_map_dom(s.drop_last(), k);
        if pairs_map(s).contains_key(k) && s.last().0@ != k {
            let i = choose|i: int| 0 <= i < s.len() - 1 && s.drop_last()[i].0@ == k;
            assert(s[i].0@ == k);
        }
        if exists|i: int| 0 <= i < s.len() && s[i].0@ == k {
            let i = choose|i: int| 0 <= i < s.len() && s[i].0@ == k;
            if i < s.len() - 1 {
                assert(s.drop_last()[i].0@ == k);
            }
        }
    }
}

pub proof fn lemma_pairs_map_at<K: View, V>(s: Seq<(K, V)>, i: int)
    requires
        keys_distinct(s),
        0 <= i < s.len(),
    ensures
        pairs_map(s).contains_key(s[i].0@),
        pairs_map(s)[s[i].0@] == s[i].1,
    decreases s.len(),
{
    if i < s.len() - 1 {
        lemma_pairs_map_at(s.drop_last(), i);
    }
}

/// Pushing a pair whose key is new adds it to the map.
pub proof fn lemma_pairs_map_push<K: View, V>(s: Seq<(K, V)>, p: (K, V))
    requires
        keys_distinct(s),
        !pairs_map(s).contains_key(p.0@),
    ensures
        keys_distinct(s.push(p)),
        pairs_map(s.push(p)) == pairs_map(s).insert(p.0@, p.1),
{
    lemma_pairs_map_dom(s, p.0@);
    assert(s.push(p).drop_last() =~= s);
}

/// Replacing the value of a pair replaces it in the map.
pub proof fn lemma_pairs_map_update<K: View, V>(s: Seq<(K, V)>, i: int, p: (K, V))
    requires
        keys_distinct(s),
        0 <= i < s.len(),
        p.0@ == s[i].0@,
    ensures
        keys_distinct(s.update(i, p)),
        pairs_map(s.update(i, p)) == pairs_map(s).insert(s[i].0@, p.1),
{
    let t = s.update(i, p);
    assert forall|k: K::V| #[trigger] pairs_map(t).contains_key(k) == pairs_map(s).insert(
        s[i].0@,
        p.1,
    ).contains_key(k) by {
        lemma_pairs_map_dom(t, k);
        lemma_pairs_map_dom(s, k);
        if exists|j: int| 0 <= j < t.len() && t[j].0@ == k {
            let j = choose|j: int| 0 <= j < t.len() && t[j].0@ == k;
            assert(s[j].0@ == k);
        }
        if pairs_map(s).contains_key(k) {
            let j = choose|j: int| 0 <= j < s.len() && s[j].0@ == k;
            assert(t[j].0@ == k);
        }
        if k == s[i].0@ {
            assert(t[i].0@ == k);
        }
    }
    assert forall|k: K::V| #[trigger] pairs_map(t).contains_key(k) implies pairs_map(t)[k]
        == pairs_map(s).insert(s[i].0@, p.1)[k] by {
        lemma_pairs_map_dom(t, k);
        let j = choose|j: int| 0 <= j < t.len() && t[j].0@ == k;
        lemma_pairs_map_at(t, j);
        if j != i {
            lemma_pairs_map_at(s, j);
        }
    }
    assert(pairs_map(t) =~= pairs_map(s).insert(s[i].0@, p.1));
}

} // verus!
