//! Stable insertion order by a numeric key, used to merge trace records by
//! event ID.
use vstd::prelude::*;
use vstd::seq_lib::to_multiset_build;

verus! {

/// `s` with `x` inserted after every element whose key is not greater than
/// `x`'s, scanning from the end.
pub open spec fn insert_by_key<V>(s: Seq<V>, x: V, key: spec_fn(V) -> u64) -> Seq<V>
    decreases s.len(),
{
    if s.len() == 0 || key(s.last()) <= key(x) {
        s.push(x)
    } else {
        insert_by_key(s.drop_last(), x, key).push(s.last())
    }
}

/// Stable sort of `s` by `key`: elements are inserted one by one in order.
pub open spec fn sort_by_key<V>(s: Seq<V>, key: spec_fn(V) -> u64) -> Seq<V>
    decreases s.len(),
{
    if s.len() == 0 {
        s
    } else {
        insert_by_key(sort_by_key(s.drop_last(), key), s.last(), key)
    }
}

/// Keys never decrease along `s`.
pub open spec fn sorted_by_key<V>(s: Seq<V>, key: spec_fn(V) -> u64) -> bool {
    forall|i: int, j: int| 0 <= i <= j < s.len() ==> key(s[i]) <= key(s[j])
}

/// Inserting at position `j`, where everything from `j` on has a greater key
/// and the element before `j` does not, is `insert_by_key`.
pub proof fn lemma_insert_at<V>(s: Seq<V>, x: V, key: spec_fn(V) -> u64, j: int)
    requires
        0 <= j <= s.len(),
        forall|k: int| j <= k < s.len() ==> key(#[trigger] s[k]) > key(x),
        j > 0 ==> key(s[j - 1]) <= key(x),
    ensures
        insert_by_key(s, x, key) == s.insert(j, x),
    decreases s.len(),
{
    if s.len() == 0 {
        assert(s.insert(j, x) =~= s.push(x));
    } else if key(s.last()) <= key(x) {
        assert(j == s.len());
        assert(s.insert(j, x) =~= s.push(x));
    } else {
        let d = s.drop_last();
        assert forall|k: int| j <= k < d.len() implies key(#[trigger] d[k]) > key(x) by {
            assert(d[k] == s[k]);
        }
        if j > 0 {
            assert(d[j - 1] == s[j - 1]);
        }
        lemma_insert_at(d, x, key, j);
        assert(d.insert(j, x).push(s.last()) =~= s.insert(j, x));
    }
}

/// Inserting by key keeps a sorted sequence sorted and adds `x` to its multiset.
pub proof fn lemma_insert_sorted<V>(s: Seq<V>, x: V, key: spec_fn(V) -> u64)
    requires
        sorted_by_key(s, key),
    ensures
        sorted_by_key(insert_by_key(s, x, key), key),
        insert_by_key(s, x, key).to_multiset() == s.to_multiset().insert(x),
        insert_by_key(s, x, key).len() == s.len() + 1,
    decreases s.len(),
{
    if s.len() == 0 || key(s.last()) <= key(x) {
        to_multiset_build(s, x);
    } else {
        let d = s.drop_last();
        lemma_insert_sorted(d, x, key);
        let r = insert_by_key(d, x, key);
        let rr = r.push(s.last());
        assert forall|i: int, j: int| 0 <= i <= j < rr.len() implies key(rr[i]) <= key(rr[j]) by {
            if j == rr.len() - 1 && i < j {
                // every element of r is x or an element of d, both at most s.last()
                assert(r.to_multiset().count(r[i]) > 0) by {
                    vstd::seq_lib::to_multiset_contains(r, r[i]);
                    assert(r.contains(r[i]));
                }
                assert(r.to_multiset() == d.to_multiset().insert(x));
                if r[i] != x {
                    assert(d.to_multiset().count(r[i]) > 0);
                    vstd::seq_lib::to_multiset_contains(d, r[i]);
                    let k = choose|k: int| 0 <= k < d.len() && d[k] == r[i];
                    assert(s[k] == d[k]);
                }
            }
        }
        to_multiset_build(r, s.last());
        to_multiset_build(d, s.last());
        assert(d.push(s.last()) =~= s);
        assert(d.to_multiset().insert(x).insert(s.last()) =~= d.to_multiset().insert(s.last()).insert(x));
    }
}

/// The sort orders by key and keeps exactly the same elements.
pub proof fn lemma_sort_by_key<V>(s: Seq<V>, key: spec_fn(V) -> u64)
    ensures
        sorted_by_key(sort_by_key(s, key), key),
        sort_by_key(s, key).to_multiset() == s.to_multiset(),
        sort_by_key(s, key).len() == s.len(),
    decreases s.len(),
{
    if s.len() == 0 {
    } else {
        let d = s.drop_last();
        lemma_sort_by_key(d, key);
        lemma_insert_sorted(sort_by_key(d, key), s.last(), key);
        to_multiset_build(d, s.last());
        assert(d.push(s.last()) =~= s);
    }
}

} // verus!
