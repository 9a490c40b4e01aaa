//! Duplicate grouping: the decision stage of the pipeline.
//!
//! Within each size bucket the digested records are partitioned by digest
//! value; digests borne by a single record are discarded. Each surviving
//! digest yields one group whose members stand in discovery order, the
//! first — the one with the lowest discovery index — designated canonical
//! and the rest the duplicates. Grouping is performed bucket by bucket,
//! so members of one group always share the bucket's byte size, and the
//! result is a function of the records alone, never of any internal map
//! iteration order.

use vstd::prelude::*;
use crate::record::{
    BucketModel, DuplicateGroup, FileRecord, GroupModel, RecordModel, SizeBucket, all_digested,
    clone_record, eq_bytes,
};
use crate::seq_util::{
    distinct_firsts, key_filter, lemma_distinct_firsts_complete, lemma_distinct_firsts_distinct,
    lemma_distinct_firsts_push, lemma_key_filter_head, lemma_key_filter_push,
    lemma_remove_insert_update,
};

verus! {

/// The grouping key of this stage: a record's digest.
pub open spec fn digest_key() -> spec_fn(RecordModel) -> Option<Seq<u8>> {
    |r: RecordModel| r.digest
}

/// The distinct digests of `ms`, in first-occurrence order.
pub open spec fn distinct_digests(ms: Seq<RecordModel>) -> Seq<Option<Seq<u8>>> {
    distinct_firsts(ms, digest_key())
}

/// The subsequence of `ms` whose records bear digest `d`.
pub open spec fn digest_filter(ms: Seq<RecordModel>, d: Option<Seq<u8>>) -> Seq<RecordModel> {
    key_filter(ms, digest_key(), d)
}

/// One member list per distinct digest of `ms`, in first-occurrence
/// order, single-member lists included.
pub open spec fn raw_groups(ms: Seq<RecordModel>) -> Seq<Seq<RecordModel>> {
    distinct_digests(ms).map_values(|d: Option<Seq<u8>>| digest_filter(ms, d))
}

/// The predicate selecting member lists that hold at least two records.
pub open spec fn big_pred() -> spec_fn(Seq<RecordModel>) -> bool {
    |g: Seq<RecordModel>| g.len() >= 2
}

/// The map making a group of a member list.
pub open spec fn group_fn() -> spec_fn(Seq<RecordModel>) -> GroupModel {
    |g: Seq<RecordModel>| group_of(g)
}

/// The member lists of `gs` that hold at least two records.
pub open spec fn kept_raw(gs: Seq<Seq<RecordModel>>) -> Seq<Seq<RecordModel>> {
    gs.filter(big_pred())
}

/// The group made of a nonempty member list: first member canonical, the
/// rest duplicates, order kept.
pub open spec fn group_of(members: Seq<RecordModel>) -> GroupModel
    recommends
        members.len() >= 1,
{
    GroupModel { canonical: members[0], duplicates: members.drop_first() }
}

/// The duplicate groups of one bucket's member list.
pub open spec fn bucket_groups_model(ms: Seq<RecordModel>) -> Seq<GroupModel> {
    kept_raw(raw_groups(ms)).map_values(group_fn())
}

/// The duplicate groups of all buckets, bucket order kept.
pub open spec fn groups_model(buckets: Seq<BucketModel>) -> Seq<GroupModel>
    decreases buckets.len(),
{
    if buckets.len() == 0 {
        Seq::empty()
    } else {
        groups_model(buckets.drop_last()) + bucket_groups_model(buckets.last().members)
    }
}

/// Keeping large member lists distributes over push.
proof fn lemma_kept_raw_push(gs: Seq<Seq<RecordModel>>, g: Seq<RecordModel>)
    ensures
        kept_raw(gs.push(g)) == if g.len() >= 2 {
            kept_raw(gs).push(g)
        } else {
            kept_raw(gs)
        },
{
    broadcast use Seq::<_>::lemma_filter_push;

}

/// How the raw member lists change when one record is pushed: the list
/// of its digest gains it at the end, or a fresh list appears at the
/// end; all other lists are untouched.
proof fn lemma_raw_groups_push(ms: Seq<RecordModel>, r: RecordModel)
    ensures
        distinct_digests(ms).contains(r.digest) ==> {
            let prev = raw_groups(ms);
            let cur = raw_groups(ms.push(r));
            &&& cur.len() == prev.len()
            &&& forall|t: int|
                0 <= t < prev.len() ==> #[trigger] cur[t] == (if distinct_digests(
                    ms,
                )[t] == r.digest {
                    prev[t].push(r)
                } else {
                    prev[t]
                })
        },
        !distinct_digests(ms).contains(r.digest) ==> {
            let prev = raw_groups(ms);
            let cur = raw_groups(ms.push(r));
            &&& cur.len() == prev.len() + 1
            &&& (forall|t: int| 0 <= t < prev.len() ==> #[trigger] cur[t] == prev[t])
            &&& cur[prev.len() as int] == seq![r]
        },
{
    lemma_distinct_firsts_push(ms, digest_key(), r);
    let dd = distinct_digests(ms);
    let prev = raw_groups(ms);
    let cur = raw_groups(ms.push(r));
    assert(digest_key()(r) == r.digest);
    if dd.contains(r.digest) {
        assert forall|t: int| 0 <= t < prev.len() implies cur[t] == (if dd[t] == r.digest {
            prev[t].push(r)
        } else {
            prev[t]
        }) by {
            lemma_key_filter_push(ms, digest_key(), r, dd[t]);
        }
    } else {
        lemma_distinct_firsts_complete(ms, digest_key(), r.digest);
        assert forall|t: int| 0 <= t < prev.len() implies cur[t] == prev[t] by {
            if dd[t] == r.digest {
                assert(dd.contains(r.digest));
            }
            lemma_key_filter_push(ms, digest_key(), r, dd[t]);
        }
        lemma_key_filter_push(ms, digest_key(), r, r.digest);
        assert(digest_filter(ms.push(r), r.digest) =~= seq![r]);
    }
}

/// Looks up the member list whose records bear digest `d` among `raw`.
fn find_group(raw: &Vec<Vec<FileRecord>>, d: &Vec<u8>) -> (o: Option<usize>)
    requires
        forall|t: int|
            0 <= t < raw@.len() ==> (#[trigger] raw@[t]@).len() > 0 && raw@[t]@[0].digest is Some,
    ensures
        match o {
            Some(j) => j < raw@.len() && raw@[j as int]@[0]@.digest == Some(d@),
            None => forall|t: int|
                0 <= t < raw@.len() ==> (#[trigger] raw@[t]@[0])@.digest != Some(d@),
        },
{
    let mut j: usize = 0;
    while j < raw.len()
        invariant
            j <= raw@.len(),
            forall|t: int|
                0 <= t < raw@.len() ==> (#[trigger] raw@[t]@).len() > 0
                    && raw@[t]@[0].digest is Some,
            forall|t: int| 0 <= t < j ==> (#[trigger] raw@[t]@[0])@.digest != Some(d@),
        decreases raw@.len() - j,
    {
        let g = &raw[j];
        match &g[0].digest {
            Some(gd) => {
                if eq_bytes(gd, d) {
                    return Some(j);
                }
            },
            None => {
                proof {
                    assert(false);
                }
            },
        }
        j += 1;
    }
    None
}

/// Partitions the members of one bucket by digest and keeps every digest
/// borne by at least two of them; each kept digest yields one group with
/// the earliest-discovered member canonical.
fn group_bucket(b: &SizeBucket) -> (gs: Vec<DuplicateGroup>)
    requires
        all_digested(b@.members),
    ensures
        gs.deep_view() == bucket_groups_model(b@.members),
{
    let ghost ms = b@.members;
    let mut raw: Vec<Vec<FileRecord>> = Vec::new();
    let mut i: usize = 0;
    while i < b.members.len()
        invariant
            ms == b@.members,
            all_digested(ms),
            i <= ms.len(),
            raw@.len() == raw_groups(ms.take(i as int)).len(),
            forall|t: int|
                0 <= t < raw@.len()
                    ==> #[trigger] raw@[t].deep_view() == raw_groups(ms.take(i as int))[t],
            forall|t: int|
                0 <= t < raw@.len() ==> (#[trigger] raw@[t]@).len() > 0
                    && raw@[t]@[0].digest is Some,
        decreases ms.len() - i,
    {
        let ghost pre = ms.take(i as int);
        let ghost rg_pre = raw_groups(pre);
        let r = &b.members[i];
        proof {
            assert(r@ == ms[i as int]);
            assert(ms.take(i as int + 1) =~= pre.push(ms[i as int]));
            lemma_raw_groups_push(pre, ms[i as int]);
            lemma_distinct_firsts_distinct(pre, digest_key());
            assert forall|t: int| 0 <= t < rg_pre.len()
                implies rg_pre[t].len() > 0 && #[trigger] rg_pre[t][0].digest
                    == distinct_digests(pre)[t] by {
                assert(distinct_digests(pre).contains(distinct_digests(pre)[t]));
                lemma_distinct_firsts_complete(pre, digest_key(), distinct_digests(pre)[t]);
                lemma_key_filter_head(pre, digest_key(), distinct_digests(pre)[t]);
            }
        }
        let c = clone_record(r);
        let ghost prev_raw = raw@;
        match &r.digest {
            Some(d) => {
                match find_group(&raw, d) {
                    Some(j) => {
                        proof {
                            assert(raw@[j as int].deep_view() == rg_pre[j as int]);
                            assert(raw@[j as int]@[0]@ == rg_pre[j as int][0]);
                            assert(distinct_digests(pre)[j as int] == ms[i as int].digest);
                            assert(distinct_digests(pre).contains(ms[i as int].digest));
                        }
                        let mut g = raw.remove(j);
                        g.push(c);
                        proof {
                            assert(g.deep_view() =~= rg_pre[j as int].push(ms[i as int]));
                        }
                        raw.insert(j, g);
                        proof {
                            lemma_remove_insert_update(prev_raw, j as int, g);
                            let rg_cur = raw_groups(ms.take(i as int + 1));
                            assert forall|t: int| 0 <= t < raw@.len()
                                implies #[trigger] raw@[t].deep_view() == rg_cur[t] by {
                                assert(raw@[t] == prev_raw.update(j as int, g)[t]);
                                if t != j {
                                    assert(distinct_digests(pre)[t]
                                        != distinct_digests(pre)[j as int]);
                                }
                            }
                            assert forall|t: int| 0 <= t < raw@.len()
                                implies (#[trigger] raw@[t]@).len() > 0
                                    && raw@[t]@[0].digest is Some by {
                                assert(raw@[t] == prev_raw.update(j as int, g)[t]);
                                if t == j {
                                    assert(g@[0] == prev_raw[j as int]@[0]);
                                }
                            }
                        }
                    },
                    None => {
                        proof {
                            if distinct_digests(pre).contains(ms[i as int].digest) {
                                let w = choose|w: int|
                                    0 <= w < distinct_digests(pre).len()
                                        && distinct_digests(pre)[w] == ms[i as int].digest;
                                assert(raw@[w].deep_view() == rg_pre[w]);
                                assert(rg_pre[w].len() > 0 && rg_pre[w][0].digest
                                    == distinct_digests(pre)[w]);
                                assert(raw@[w]@[0]@ == raw@[w].deep_view()[0]);
                                assert(ms[i as int].digest == Some(d@));
                                assert(raw@[w]@[0]@.digest == Some(d@));
                            }
                        }
                        let mut members: Vec<FileRecord> = Vec::new();
                        members.push(c);
                        proof {
                            assert(members.deep_view() =~= seq![ms[i as int]]);
                        }
                        raw.push(members);
                        proof {
                            let rg_cur = raw_groups(ms.take(i as int + 1));
                            assert forall|t: int| 0 <= t < raw@.len()
                                implies #[trigger] raw@[t].deep_view() == rg_cur[t] by {
                                assert(rg_pre.len() == distinct_digests(pre).len());
                                if t < prev_raw.len() {
                                    assert(raw@[t] == prev_raw[t]);
                                }
                            }
                        }
                    },
                }
            },
            None => {
                proof {
                    assert(false);
                }
            },
        }
        i += 1;
    }
    proof {
        assert(ms.take(ms.len() as int) =~= ms);
    }
    let ghost orig = raw_groups(ms);
    let mut gs: Vec<DuplicateGroup> = Vec::new();
    let ghost mut k: int = 0;
    while raw.len() > 0
        invariant
            0 <= k <= orig.len(),
            raw@.len() == orig.len() - k,
            forall|t: int| 0 <= t < raw@.len() ==> #[trigger] raw@[t].deep_view() == orig[k + t],
            gs@.len() == bucket_groups_prefix(orig, k).len(),
            forall|t: int|
                0 <= t < gs@.len() ==> #[trigger] gs@[t]@ == bucket_groups_prefix(orig, k)[t],
        decreases raw@.len(),
    {
        let mut g = raw.remove(0);
        proof {
            assert(g.deep_view() == orig[k]);
            assert(orig.take(k + 1) =~= orig.take(k).push(orig[k]));
            lemma_kept_raw_push(orig.take(k), orig[k]);
        }
        if g.len() >= 2 {
            let canonical = g.remove(0);
            proof {
                assert(g.deep_view() =~= orig[k].drop_first());
            }
            gs.push(DuplicateGroup { canonical, duplicates: g });
        }
        proof {
            k = k + 1;
        }
    }
    proof {
        assert(orig.take(orig.len() as int) =~= orig);
        assert(gs.deep_view() =~= bucket_groups_model(ms));
    }
    gs
}

/// The groups of the first `k` raw member lists of `orig`.
spec fn bucket_groups_prefix(orig: Seq<Seq<RecordModel>>, k: int) -> Seq<GroupModel> {
    kept_raw(orig.take(k)).map_values(group_fn())
}

/// Partitions every bucket's members by digest and emits the duplicate
/// groups of all buckets, in bucket order: one group per digest borne by
/// at least two same-sized records, canonical first.
pub fn group_duplicates(buckets: &Vec<SizeBucket>) -> (groups: Vec<DuplicateGroup>)
    requires
        forall|i: int|
            0 <= i < buckets.deep_view().len()
                ==> all_digested((#[trigger] buckets.deep_view()[i]).members),
    ensures
        groups.deep_view() == groups_model(buckets.deep_view()),
{
    let ghost bv = buckets.deep_view();
    let mut groups: Vec<DuplicateGroup> = Vec::new();
    let mut i: usize = 0;
    while i < buckets.len()
        invariant
            bv == buckets.deep_view(),
            forall|t: int| 0 <= t < bv.len() ==> all_digested((#[trigger] bv[t]).members),
            i <= bv.len(),
            groups@.len() == groups_model(bv.take(i as int)).len(),
            forall|t: int|
                0 <= t < groups@.len()
                    ==> #[trigger] groups@[t]@ == groups_model(bv.take(i as int))[t],
        decreases bv.len() - i,
    {
        let ghost pre = bv.take(i as int);
        let b = &buckets[i];
        proof {
            assert(b@ == bv[i as int]);
            assert(bv.take(i as int + 1) =~= pre.push(bv[i as int]));
            assert(bv.take(i as int + 1).drop_last() =~= pre);
        }
        let mut gs = group_bucket(b);
        let ghost prev_groups = groups@;
        let ghost gsv = gs@;
        groups.append(&mut gs);
        proof {
            let cur = groups_model(bv.take(i as int + 1));
            assert(cur == groups_model(pre) + bucket_groups_model(bv[i as int].members));
            assert forall|t: int| 0 <= t < groups@.len()
                implies #[trigger] groups@[t]@ == cur[t] by {
                if t < prev_groups.len() {
                    assert(groups@[t] == prev_groups[t]);
                } else {
                    assert(groups@[t] == gsv[t - prev_groups.len()]);
                    assert(gsv[t - prev_groups.len()]@
                        == bucket_groups_model(bv[i as int].members)[t - prev_groups.len()]);
                }
            }
        }
        i += 1;
    }
    proof {
        assert(bv.take(bv.len() as int) =~= bv);
        assert(groups.deep_view() =~= groups_model(bv));
    }
    groups
}

} // verus!
