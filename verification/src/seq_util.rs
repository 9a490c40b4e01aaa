//! Facts about grouping a sequence by a key: the distinct keys in
//! first-occurrence order, and the subsequence bearing one key. Both the
//! size-grouping and the digest-grouping stage are stated with these.

use vstd::prelude::*;

verus! {

/// The distinct keys of `s` under `key`, in first-occurrence order.
pub open spec fn distinct_firsts<A, K>(s: Seq<A>, key: spec_fn(A) -> K) -> Seq<K>
    decreases s.len(),
{
    if s.len() == 0 {
        Seq::empty()
    } else {
        let prev = distinct_firsts(s.drop_last(), key);
        if prev.contains(key(s.last())) {
            prev
        } else {
            prev.push(key(s.last()))
        }
    }
}

/// The subsequence of `s` whose elements bear key `k`, in original order.
pub open spec fn key_filter<A, K>(s: Seq<A>, key: spec_fn(A) -> K, k: K) -> Seq<A> {
    s.filter(|a: A| key(a) == k)
}

/// Membership in a pushed sequence is membership in the original or
/// equality with the pushed element.
pub proof fn lemma_contains_push<A>(s: Seq<A>, x: A, y: A)
    ensures
        s.push(x).contains(y) <==> (s.contains(y) || x == y),
{
    assert(s.push(x)[s.len() as int] == x);
    if s.push(x).contains(y) {
        let i = choose|i: int| 0 <= i < s.push(x).len() && s.push(x)[i] == y;
        if i < s.len() {
            assert(s[i] == y);
        }
    }
    if s.contains(y) {
        let i = choose|i: int| 0 <= i < s.len() && s[i] == y;
        assert(s.push(x)[i] == y);
    }
}

/// Filtering by key distributes over push.
pub proof fn lemma_key_filter_push<A, K>(s: Seq<A>, key: spec_fn(A) -> K, x: A, k: K)
    ensures
        key_filter(s.push(x), key, k) == if key(x) == k {
            key_filter(s, key, k).push(x)
        } else {
            key_filter(s, key, k)
        },
{
    broadcast use Seq::<_>::lemma_filter_push;

}

/// The first element of a nonempty key filter bears the key.
pub proof fn lemma_key_filter_head<A, K>(s: Seq<A>, key: spec_fn(A) -> K, k: K)
    requires
        key_filter(s, key, k).len() > 0,
    ensures
        key(key_filter(s, key, k)[0]) == k,
{
    broadcast use vstd::seq_lib::group_filter_ensures;

}

/// Every element of a key filter is an element of the original sequence.
pub proof fn lemma_key_filter_element<A, K>(s: Seq<A>, key: spec_fn(A) -> K, k: K, i: int)
    requires
        0 <= i < key_filter(s, key, k).len(),
    ensures
        key(key_filter(s, key, k)[i]) == k,
        exists|t: int| 0 <= t < s.len() && s[t] == key_filter(s, key, k)[i],
    decreases s.len(),
{
    broadcast use vstd::seq_lib::group_filter_ensures;
    broadcast use Seq::<_>::lemma_filter_contains_rev;

    let f = key_filter(s, key, k);
    assert(f.contains(f[i]));
    assert(s.contains(f[i]));
}

/// Removing the element at `j` and inserting `x` there is a pointwise
/// update.
pub proof fn lemma_remove_insert_update<A>(s: Seq<A>, j: int, x: A)
    requires
        0 <= j < s.len(),
    ensures
        s.remove(j).insert(j, x) == s.update(j, x),
{
    assert(s.remove(j).insert(j, x) =~= s.update(j, x));
}

/// A key is among the distinct keys exactly when some element bears it.
pub proof fn lemma_distinct_firsts_complete<A, K>(s: Seq<A>, key: spec_fn(A) -> K, k: K)
    ensures
        distinct_firsts(s, key).contains(k) <==> key_filter(s, key, k).len() != 0,
    decreases s.len(),
{
    reveal(Seq::filter);
    if s.len() == 0 {
        assert(!distinct_firsts(s, key).contains(k));
    } else {
        let prev = s.drop_last();
        lemma_distinct_firsts_complete(prev, key, k);
        lemma_key_filter_push(prev, key, s.last(), k);
        assert(prev.push(s.last()) =~= s);
        lemma_contains_push(distinct_firsts(prev, key), key(s.last()), k);
    }
}

/// How the distinct keys change when one element is pushed.
pub proof fn lemma_distinct_firsts_push<A, K>(s: Seq<A>, key: spec_fn(A) -> K, x: A)
    ensures
        distinct_firsts(s.push(x), key) == if distinct_firsts(s, key).contains(key(x)) {
            distinct_firsts(s, key)
        } else {
            distinct_firsts(s, key).push(key(x))
        },
{
    assert(s.push(x).drop_last() =~= s);
    assert(s.push(x).last() == x);
}

/// The distinct keys are pairwise distinct.
pub proof fn lemma_distinct_firsts_distinct<A, K>(s: Seq<A>, key: spec_fn(A) -> K)
    ensures
        forall|a: int, b: int|
            0 <= a < b < distinct_firsts(s, key).len()
                ==> #[trigger] distinct_firsts(s, key)[a]
                    != #[trigger] distinct_firsts(s, key)[b],
    decreases s.len(),
{
    if s.len() != 0 {
        let prev = distinct_firsts(s.drop_last(), key);
        lemma_distinct_firsts_distinct(s.drop_last(), key);
        let cur = distinct_firsts(s, key);
        if !prev.contains(key(s.last())) {
            assert forall|a: int, b: int|
                0 <= a < b < cur.len() implies cur[a] != cur[b] by {
                if b == prev.len() {
                    if cur[a] == key(s.last()) {
                        assert(prev[a] == key(s.last()));
                        assert(prev.contains(key(s.last())));
                    }
                }
            }
        }
    }
}

} // verus!
