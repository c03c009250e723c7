//! Association-list storage with a map abstraction.
//!
//! Each logical table of the registry is a vector of key/value pairs whose
//! keys are pairwise distinct.  [`kv_map`] gives the table's contents as a
//! `Map` over the deep views of keys and values; the lemmas here relate the
//! vector operations (push, update, remove) to the corresponding map
//! operations.

use vstd::prelude::*;

verus! {

/// The contents of an association list, as a map from key views to value
/// views.  A later entry shadows an earlier one with the same key, but the
/// registry only ever builds lists with distinct keys ([`kv_unique`]).
pub open spec fn kv_map<K: DeepView, V: DeepView>(s: Seq<(K, V)>) -> Map<K::V, V::V>
    decreases s.len(),
{
    if s.len() == 0 {
        Map::empty()
    } else {
        kv_map(s.drop_last()).insert(s.last().0.deep_view(), s.last().1.deep_view())
    }
}

/// The keys of the association list are pairwise distinct.
pub open spec fn kv_unique<K: DeepView, V>(s: Seq<(K, V)>) -> bool {
    forall|i: int, j: int| 0 <= i < j < s.len() ==> s[i].0.deep_view() != s[j].0.deep_view()
}

/// A key is in the map exactly when some entry of the list carries it.
pub proof fn lemma_kv_dom<K: DeepView, V: DeepView>(s: Seq<(K, V)>, k: K::V)
    ensures
        kv_map(s).dom().contains(k) <==> exists|i: int|
            0 <= i < s.len() && s[i].0.deep_view() == k,
    decreases s.len(),
{
    if s.len() > 0 {
        lemma_kv_dom(s.drop_last(), k);
        if s.last().0.deep_view() == k {
            assert(s[s.len() - 1].0.deep_view() == k);
        } else if kv_map(s).dom().contains(k) {
            let i = choose|i: int| 0 <= i < s.drop_last().len() && s.drop_last()[i].0.deep_view()
                == k;
            assert(s[i].0.deep_view() == k);
        } else if exists|i: int| 0 <= i < s.len() && s[i].0.deep_view() == k {
            let i = choose|i: int| 0 <= i < s.len() && s[i].0.deep_view() == k;
            assert(s.drop_last()[i].0.deep_view() == k);
        }
    }
}

/// With distinct keys, the map sends each entry's key to that entry's value.
pub proof fn lemma_kv_index<K: DeepView, V: DeepView>(s: Seq<(K, V)>, i: int)
    requires
        kv_unique(s),
        0 <= i < s.len(),
    ensures
        kv_map(s).dom().contains(s[i].0.deep_view()),
        kv_map(s)[s[i].0.deep_view()] == s[i].1.deep_view(),
    decreases s.len(),
{
    if i < s.len() - 1 {
        lemma_kv_index(s.drop_last(), i);
        assert(s[s.len() - 1].0.deep_view() != s[i].0.deep_view());
    }
}

/// Appending a pair inserts its views into the map.
pub proof fn lemma_kv_push<K: DeepView, V: DeepView>(s: Seq<(K, V)>, k: K, v: V)
    ensures
        kv_map(s.push((k, v))) == kv_map(s).insert(k.deep_view(), v.deep_view()),
{
    assert(s.push((k, v)).drop_last() =~= s);
    assert(s.push((k, v)).last() == (k, v));
}

/// Overwriting the entry at `i` with a pair carrying the same key view
/// updates that key's value in the map.
pub proof fn lemma_kv_update<K: DeepView, V: DeepView>(s: Seq<(K, V)>, i: int, k: K, v: V)
    requires
        kv_unique(s),
        0 <= i < s.len(),
        k.deep_view() == s[i].0.deep_view(),
    ensures
        kv_map(s.update(i, (k, v))) == kv_map(s).insert(k.deep_view(), v.deep_view()),
        kv_unique(s.update(i, (k, v))),
    decreases s.len(),
{
    let t = s.update(i, (k, v));
    if i == s.len() - 1 {
        assert(t.drop_last() =~= s.drop_last());
        assert(t.last() == (k, v));
        assert(kv_map(t) =~= kv_map(s).insert(k.deep_view(), v.deep_view()));
    } else {
        lemma_kv_update(s.drop_last(), i, k, v);
        assert(t.drop_last() =~= s.drop_last().update(i, (k, v)));
        assert(t.last() == s.last());
        assert(s.last().0.deep_view() != k.deep_view());
        assert(kv_map(t) =~= kv_map(s).insert(k.deep_view(), v.deep_view()));
    }
}

/// Removing the entry at `i` removes its key from the map.
pub proof fn lemma_kv_remove<K: DeepView, V: DeepView>(s: Seq<(K, V)>, i: int)
    requires
        kv_unique(s),
        0 <= i < s.len(),
    ensures
        kv_map(s.remove(i)) == kv_map(s).remove(s[i].0.deep_view()),
        kv_unique(s.remove(i)),
    decreases s.len(),
{
    let t = s.remove(i);
    if i == s.len() - 1 {
        assert(t =~= s.drop_last());
        lemma_kv_dom(s.drop_last(), s[i].0.deep_view());
        assert(kv_map(t) =~= kv_map(s).remove(s[i].0.deep_view()));
    } else {
        lemma_kv_remove(s.drop_last(), i);
        assert(t.drop_last() =~= s.drop_last().remove(i));
        assert(t.last() == s.last());
        assert(s.last().0.deep_view() != s[i].0.deep_view());
        assert(kv_map(t) =~= kv_map(s).remove(s[i].0.deep_view()));
    }
}

/// The deep view of a byte vector is its plain view.
pub broadcast proof fn lemma_bytes_deep_view(v: Vec<u8>)
    ensures
        #[trigger] v.deep_view() == v@,
{
    assert(v.deep_view() =~= v@);
}

/// The deep view of a vector of voter identities is its plain view.
pub broadcast proof fn lemma_accounts_deep_view(v: Vec<u64>)
    ensures
        #[trigger] v.deep_view() == v@,
{
    assert(v.deep_view() =~= v@);
}

/// A copy of a byte string with the same view.
pub fn clone_bytes(v: &Vec<u8>) -> (r: Vec<u8>)
    ensures
        r@ == v@,
{
    let r = v.clone();
    proof {
        assert(forall|i: int| 0 <= i < v@.len() ==> r@[i] == v@[i]);
        assert(r@ =~= v@);
    }
    r
}

/// Byte-string equality, decided element by element.
pub fn bytes_eq(a: &Vec<u8>, b: &Vec<u8>) -> (r: bool)
    ensures
        r == (a@ == b@),
{
    if a.len() != b.len() {
        return false;
    }
    let mut i: usize = 0;
    while i < a.len()
        invariant
            i <= a@.len(),
            a@.len() == b@.len(),
            forall|j: int| 0 <= j < i ==> a@[j] == b@[j],
        decreases a@.len() - i,
    {
        if a[i] != b[i] {
            return false;
        }
        i = i + 1;
    }
    proof {
        assert(a@ =~= b@);
    }
    true
}

/// Whether the vector holds the given identity.
pub fn contains_u64(s: &Vec<u64>, x: u64) -> (r: bool)
    ensures
        r == s@.contains(x),
{
    let mut i: usize = 0;
    while i < s.len()
        invariant
            i <= s@.len(),
            forall|j: int| 0 <= j < i ==> s@[j] != x,
        decreases s@.len() - i,
    {
        if s[i] == x {
            return true;
        }
        i = i + 1;
    }
    false
}

/// Position of the entry whose key equals `k`, if the list has one.
pub fn kv_find<V>(s: &Vec<(Vec<u8>, V)>, k: &Vec<u8>) -> (r: Option<usize>)
    ensures
        match r {
            Some(i) => 0 <= i < s@.len() && s@[i as int].0@ == k@ && forall|j: int|
                0 <= j < i ==> s@[j].0@ != k@,
            None => forall|j: int| 0 <= j < s@.len() ==> s@[j].0@ != k@,
        },
{
    let mut i: usize = 0;
    while i < s.len()
        invariant
            i <= s@.len(),
            forall|j: int| 0 <= j < i ==> s@[j].0@ != k@,
        decreases s@.len() - i,
    {
        if bytes_eq(&s[i].0, k) {
            return Some(i);
        }
        i = i + 1;
    }
    None
}

} // verus!
