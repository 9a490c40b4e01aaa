//! Size grouping: the first pruning stage of the pipeline.
//!
//! The scanner's records are partitioned by exact byte size; each size
//! shared by at least two records yields one bucket holding exactly the
//! records of that size, in discovery order. Sizes borne by a single
//! record are dropped: a lone file of its size cannot have a duplicate.
//! Zero-byte files are legitimate duplicate candidates and are bucketed
//! like any others.

use vstd::prelude::*;
use crate::record::{BucketModel, FileRecord, RecordModel, SizeBucket, clone_record};
use crate::seq_util::{
    distinct_firsts, key_filter, lemma_distinct_firsts_complete,
    lemma_distinct_firsts_distinct, lemma_distinct_firsts_push, lemma_key_filter_push,
    lemma_remove_insert_update,
};

verus! {

/// The grouping key of this stage: a record's byte size.
pub open spec fn size_key() -> spec_fn(RecordModel) -> u64 {
    |r: RecordModel| r.size
}

/// The distinct byte sizes of `rs`, in first-occurrence order.
pub open spec fn distinct_sizes(rs: Seq<RecordModel>) -> Seq<u64> {
    distinct_firsts(rs, size_key())
}

/// The subsequence of `rs` whose records have byte size `sz`.
pub open spec fn size_filter(rs: Seq<RecordModel>, sz: u64) -> Seq<RecordModel> {
    key_filter(rs, size_key(), sz)
}

/// One bucket per distinct size of `rs`, in first-occurrence order,
/// single-member buckets included.
pub open spec fn raw_buckets(rs: Seq<RecordModel>) -> Seq<BucketModel> {
    distinct_sizes(rs).map_values(
        |sz: u64| BucketModel { size: sz, members: size_filter(rs, sz) },
    )
}

/// The buckets of `bs` that hold at least two members.
pub open spec fn kept_buckets(bs: Seq<BucketModel>) -> Seq<BucketModel> {
    bs.filter(|b: BucketModel| b.members.len() >= 2)
}

/// The size buckets of `rs`: one per byte size shared by at least two
/// records, in first-occurrence order, each holding exactly the records
/// of that size in their original order.
pub open spec fn buckets_model(rs: Seq<RecordModel>) -> Seq<BucketModel> {
    kept_buckets(raw_buckets(rs))
}

/// Keeping large buckets distributes over push.
proof fn lemma_kept_push(bs: Seq<BucketModel>, b: BucketModel)
    ensures
        kept_buckets(bs.push(b)) == if b.members.len() >= 2 {
            kept_buckets(bs).push(b)
        } else {
            kept_buckets(bs)
        },
{
    broadcast use Seq::<_>::lemma_filter_push;

}

/// How the raw buckets change when one record is pushed: the bucket of
/// its size gains it at the end, or a fresh bucket for its size appears
/// at the end; all other buckets are untouched.
proof fn lemma_raw_buckets_push(rs: Seq<RecordModel>, r: RecordModel)
    ensures
        distinct_sizes(rs).contains(r.size) ==> {
            let prev = raw_buckets(rs);
            let cur = raw_buckets(rs.push(r));
            &&& cur.len() == prev.len()
            &&& forall|t: int|
                0 <= t < prev.len() ==> #[trigger] cur[t] == (if prev[t].size == r.size {
                    BucketModel { size: prev[t].size, members: prev[t].members.push(r) }
                } else {
                    prev[t]
                })
        },
        !distinct_sizes(rs).contains(r.size) ==> {
            let prev = raw_buckets(rs);
            let cur = raw_buckets(rs.push(r));
            &&& cur.len() == prev.len() + 1
            &&& (forall|t: int| 0 <= t < prev.len() ==> #[trigger] cur[t] == prev[t])
            &&& cur[prev.len() as int] == BucketModel { size: r.size, members: seq![r] }
        },
{
    lemma_distinct_firsts_push(rs, size_key(), r);
    let ds = distinct_sizes(rs);
    let ds2 = distinct_sizes(rs.push(r));
    let prev = raw_buckets(rs);
    let cur = raw_buckets(rs.push(r));
    assert(size_key()(r) == r.size);
    if ds.contains(r.size) {
        assert forall|t: int| 0 <= t < prev.len() implies cur[t] == (if prev[t].size == r.size {
            BucketModel { size: prev[t].size, members: prev[t].members.push(r) }
        } else {
            prev[t]
        }) by {
            lemma_key_filter_push(rs, size_key(), r, ds[t]);
            assert(cur[t] =~= (if prev[t].size == r.size {
                BucketModel { size: prev[t].size, members: prev[t].members.push(r) }
            } else {
                prev[t]
            }));
        }
    } else {
        lemma_distinct_firsts_complete(rs, size_key(), r.size);
        assert forall|t: int| 0 <= t < prev.len() implies cur[t] == prev[t] by {
            if ds[t] == r.size {
                assert(ds.contains(r.size));
            }
            lemma_key_filter_push(rs, size_key(), r, ds[t]);
            assert(cur[t] =~= prev[t]);
        }
        lemma_key_filter_push(rs, size_key(), r, r.size);
        assert(size_filter(rs.push(r), r.size) =~= seq![r]);
        assert(cur[prev.len() as int] =~= BucketModel { size: r.size, members: seq![r] });
    }
}

/// Looks up the bucket of byte size `sz` among `all`, if any.
fn find_bucket(all: &Vec<SizeBucket>, sz: u64) -> (o: Option<usize>)
    ensures
        match o {
            Some(j) => j < all@.len() && all@[j as int].size == sz,
            None => forall|t: int| 0 <= t < all@.len() ==> (#[trigger] all@[t]).size != sz,
        },
{
    let mut j: usize = 0;
    while j < all.len()
        invariant
            j <= all@.len(),
            forall|t: int| 0 <= t < j ==> (#[trigger] all@[t]).size != sz,
        decreases all@.len() - j,
    {
        if all[j].size == sz {
            return Some(j);
        }
        j += 1;
    }
    None
}

/// Partitions `records` by exact byte size and keeps every size shared
/// by at least two records: the core pruning step that spares hashing
/// files no other file matches in size.
pub fn group_by_size(records: &Vec<FileRecord>) -> (buckets: Vec<SizeBucket>)
    ensures
        buckets.deep_view() == buckets_model(records.deep_view()),
{
    let ghost rs = records.deep_view();
    let mut all: Vec<SizeBucket> = Vec::new();
    let mut i: usize = 0;
    while i < records.len()
        invariant
            rs == records.deep_view(),
            i <= rs.len(),
            all@.len() == raw_buckets(rs.take(i as int)).len(),
            forall|t: int|
                0 <= t < all@.len()
                    ==> #[trigger] all@[t]@ == raw_buckets(rs.take(i as int))[t],
        decreases rs.len() - i,
    {
        let ghost pre = rs.take(i as int);
        let ghost rb_pre = raw_buckets(pre);
        let r = &records[i];
        proof {
            assert(r@ == rs[i as int]);
            assert(rs.take(i as int + 1) =~= pre.push(rs[i as int]));
            lemma_raw_buckets_push(pre, rs[i as int]);
            lemma_distinct_firsts_distinct(pre, size_key());
        }
        let c = clone_record(r);
        let ghost prev_all = all@;
        match find_bucket(&all, r.size) {
            Some(j) => {
                proof {
                    assert(all@[j as int]@ == rb_pre[j as int]);
                    assert(rb_pre[j as int].size == distinct_sizes(pre)[j as int]);
                    assert(distinct_sizes(pre).contains(rs[i as int].size));
                }
                let mut b = all.remove(j);
                b.members.push(c);
                proof {
                    assert(b.members.deep_view()
                        =~= rb_pre[j as int].members.push(rs[i as int]));
                }
                all.insert(j, b);
                proof {
                    lemma_remove_insert_update(prev_all, j as int, b);
                    let rb_cur = raw_buckets(rs.take(i as int + 1));
                    assert forall|t: int| 0 <= t < all@.len()
                        implies #[trigger] all@[t]@ == rb_cur[t] by {
                        assert(all@[t] == prev_all.update(j as int, b)[t]);
                        assert(rb_pre[t].size == distinct_sizes(pre)[t]);
                        if t != j {
                            assert(rb_pre[t].size != rs[i as int].size);
                        }
                    }
                }
            },
            None => {
                proof {
                    if distinct_sizes(pre).contains(rs[i as int].size) {
                        let w = choose|w: int|
                            0 <= w < distinct_sizes(pre).len()
                                && distinct_sizes(pre)[w] == rs[i as int].size;
                        assert(all@[w]@ == rb_pre[w]);
                        assert(all@[w].size == rs[i as int].size);
                    }
                }
                let mut members: Vec<FileRecord> = Vec::new();
                members.push(c);
                let nb = SizeBucket { size: r.size, members };
                proof {
                    assert(nb@.members =~= seq![rs[i as int]]);
                }
                all.push(nb);
                proof {
                    let rb_cur = raw_buckets(rs.take(i as int + 1));
                    assert forall|t: int| 0 <= t < all@.len()
                        implies #[trigger] all@[t]@ == rb_cur[t] by {
                        assert(rb_pre.len() == distinct_sizes(pre).len());
                        if t < prev_all.len() {
                            assert(all@[t] == prev_all[t]);
                        } else {
                            assert(all@[t] == nb);
                        }
                    }
                }
            },
        }
        i += 1;
    }
    proof {
        assert(rs.take(rs.len() as int) =~= rs);
    }
    let ghost orig = raw_buckets(rs);
    let mut buckets: Vec<SizeBucket> = Vec::new();
    let ghost mut k: int = 0;
    while all.len() > 0
        invariant
            0 <= k <= orig.len(),
            all@.len() == orig.len() - k,
            forall|t: int| 0 <= t < all@.len() ==> #[trigger] all@[t]@ == orig[k + t],
            buckets@.len() == kept_buckets(orig.take(k)).len(),
            forall|t: int|
                0 <= t < buckets@.len()
                    ==> #[trigger] buckets@[t]@ == kept_buckets(orig.take(k))[t],
        decreases all@.len(),
    {
        let b = all.remove(0);
        proof {
            assert(b@ == orig[k]);
            assert(orig.take(k + 1) =~= orig.take(k).push(orig[k]));
            lemma_kept_push(orig.take(k), orig[k]);
        }
        if b.members.len() >= 2 {
            buckets.push(b);
        }
        proof {
            k = k + 1;
        }
    }
    proof {
        assert(orig.take(orig.len() as int) =~= orig);
        assert(buckets.deep_view() =~= buckets_model(rs));
    }
    buckets
}

} // verus!
