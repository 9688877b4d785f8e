//! Merging hash maps and hash sets.
use std::collections::{HashMap, HashSet};
use std::hash::Hash;
use vstd::prelude::*;
use vstd::std_specs::hash::obeys_key_model;

verus! {

broadcast use {vstd::std_specs::hash::group_hash_axioms, vstd::seq_lib::group_seq_lib_default};

proof fn lemma_take_all<A>(s: Seq<A>)
    ensures
        s.take(s.len() as int) == s,
{
    assert(s.take(s.len() as int) =~= s);
}

/// Inserts a clone of every key of `from` into `into`.
fn insert_all<K: Hash + Eq + Clone>(into: &mut HashSet<K>, from: &HashSet<K>)
    requires
        obeys_key_model::<K>(),
        forall|a: K, b: K| #[trigger] cloned(a, b) ==> a == b,
    ensures
        final(into)@ == old(into)@.union(from@),
{
    let ghost start = into@;
    for key in it: from.iter()
        invariant
            obeys_key_model::<K>(),
            forall|a: K, b: K| #[trigger] cloned(a, b) ==> a == b,
            into@ == start.union(it.seq().take(it.index() as int).unref().to_set()),
            it.seq().unref().to_set() == from@,
            it.index() == it.seq().len() ==> into@ == start.union(from@),
    {
        let ghost idx = it.index() as int;
        let ghost done = it.seq().take(idx).unref();
        let k = key.clone();
        proof {
            assert(cloned(*key, k));
            assert(it.seq().take(idx + 1).unref() =~= done.push(*key));
            done.lemma_push_to_set_commute(*key);
        }
        into.insert(k);
        proof {
            assert(into@ =~= start.union(done.push(*key).to_set()));
            lemma_take_all(it.seq());
        }
    }
}

/// The keys of both sets.
pub fn merge_set<K: Hash + Eq + Clone>(first_context: &HashSet<K>, second_context: &HashSet<K>) -> (r:
    HashSet<K>)
    requires
        obeys_key_model::<K>(),
        forall|a: K, b: K| #[trigger] cloned(a, b) ==> a == b,
    ensures
        r@ == first_context@.union(second_context@),
{
    let mut new_context: HashSet<K> = HashSet::new();
    insert_all(&mut new_context, first_context);
    insert_all(&mut new_context, second_context);
    assert(new_context@ =~= first_context@.union(second_context@));
    new_context
}

/// The map that inserting the pairs of `s` in order builds.
pub open spec fn pairs_map<K, V>(s: Seq<(K, V)>) -> Map<K, V>
    decreases s.len(),
{
    if s.len() == 0 {
        Map::empty()
    } else {
        pairs_map(s.drop_last()).insert(s.last().0, s.last().1)
    }
}

proof fn lemma_pairs_map_agrees<K, V>(s: Seq<(K, V)>, m: Map<K, V>)
    requires
        forall|i: int| 0 <= i < s.len() ==> m.contains_key(#[trigger] s[i].0) && m[s[i].0] == s[i].1,
    ensures
        forall|k: K| #[trigger] pairs_map(s).contains_key(k) <==> exists|i: int| 0 <= i < s.len() && s[i].0 == k,
        forall|k: K| #[trigger] pairs_map(s).contains_key(k) ==> pairs_map(s)[k] == m[k],
    decreases s.len(),
{
    if s.len() > 0 {
        let t = s.drop_last();
        let last = s[s.len() - 1];
        assert forall|i: int| 0 <= i < t.len() implies m.contains_key(#[trigger] t[i].0) && m[t[i].0] == t[i].1 by {
            assert(t[i] == s[i]);
        }
        lemma_pairs_map_agrees(t, m);
        assert(pairs_map(s) == pairs_map(t).insert(last.0, last.1));
        assert(m.contains_key(last.0) && m[last.0] == last.1);
        assert forall|k: K| #[trigger] pairs_map(s).contains_key(k) implies exists|i: int| 0 <= i < s.len() && s[i].0 == k by {
            if k == last.0 {
                assert(s[s.len() - 1].0 == k);
            } else {
                assert(pairs_map(t).contains_key(k));
                let i = choose|i: int| 0 <= i < t.len() && t[i].0 == k;
                assert(s[i] == t[i]);
            }
        }
        assert forall|k: K| (exists|i: int| 0 <= i < s.len() && s[i].0 == k) implies #[trigger] pairs_map(s).contains_key(k) by {
            let i = choose|i: int| 0 <= i < s.len() && s[i].0 == k;
            if i < t.len() {
                assert(t[i] == s[i]);
                assert(pairs_map(t).contains_key(k));
            }
        }
    }
}

proof fn lemma_pairs_cover<K, V>(refs: Seq<(&K, &V)>, m: Map<K, V>)
    requires
        forall|i: int|
            0 <= i < refs.len() ==> m.contains_key(#[trigger] refs.unref()[i].0) && m[refs.unref()[i].0]
                == refs.unref()[i].1,
        forall|k: K| #[trigger] m.contains_key(k) ==> refs.contains((&k, &m[k])),
    ensures
        pairs_map(refs.unref()) == m,
{
    let all = refs.unref();
    lemma_pairs_map_agrees(all, m);
    assert forall|k: K| m.contains_key(k) implies #[trigger] pairs_map(all).contains_key(k) by {
        let i = choose|i: int| 0 <= i < refs.len() && refs[i] == (&k, &m[k]);
        assert(all[i].0 == k);
    }
    assert(pairs_map(all) =~= m);
}

/// Inserts a clone of every entry of `from` into `into`, replacing what a key held.
fn insert_all_entries<K: Hash + Eq + Clone, V: Clone>(into: &mut HashMap<K, V>, from: &HashMap<K, V>)
    requires
        obeys_key_model::<K>(),
        forall|a: K, b: K| #[trigger] cloned(a, b) ==> a == b,
        forall|a: V, b: V| #[trigger] cloned(a, b) ==> a == b,
    ensures
        final(into)@ == old(into)@.union_prefer_right(from@),
{
    let ghost start = into@;
    for (key, value) in it: from.iter()
        invariant
            obeys_key_model::<K>(),
            forall|a: K, b: K| #[trigger] cloned(a, b) ==> a == b,
            forall|a: V, b: V| #[trigger] cloned(a, b) ==> a == b,
            into@ == start.union_prefer_right(pairs_map(it.seq().take(it.index() as int).unref())),
            forall|i: int|
                0 <= i < it.seq().len() ==> from@.contains_key(#[trigger] it.seq().unref()[i].0)
                    && from@[it.seq().unref()[i].0] == it.seq().unref()[i].1,
            forall|k: K| #[trigger] from@.contains_key(k) ==> it.seq().contains((&k, &from@[k])),
            it.index() == it.seq().len() ==> into@ == start.union_prefer_right(from@),
    {
        let ghost idx = it.index() as int;
        let ghost done = it.seq().take(idx).unref();
        let k = key.clone();
        let v = value.clone();
        proof {
            assert(cloned(*key, k));
            assert(cloned(*value, v));
            assert(it.seq().take(idx + 1).unref() =~= done.push((k, v)));
            assert(done.push((k, v)).drop_last() =~= done);
        }
        into.insert(k, v);
        proof {
            assert(into@ =~= start.union_prefer_right(pairs_map(done.push((k, v)))));
            lemma_take_all(it.seq());
            lemma_pairs_cover(it.seq(), from@);
        }
    }
}

/// The entries of both maps; where a key is in both, the entry of `second_context`.
pub fn merge_map<K: Hash + Eq + Clone, V: Clone>(
    first_context: &HashMap<K, V>,
    second_context: &HashMap<K, V>,
) -> (r: HashMap<K, V>)
    requires
        obeys_key_model::<K>(),
        forall|a: K, b: K| #[trigger] cloned(a, b) ==> a == b,
        forall|a: V, b: V| #[trigger] cloned(a, b) ==> a == b,
    ensures
        r@ == first_context@.union_prefer_right(second_context@),
{
    let mut new_context: HashMap<K, V> = HashMap::new();
    insert_all_entries(&mut new_context, first_context);
    insert_all_entries(&mut new_context, second_context);
    assert(new_context@ =~= first_context@.union_prefer_right(second_context@));
    new_context
}

} // verus!
