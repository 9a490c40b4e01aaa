//! Cross-stage laws of the pipeline, proved once and for all: every
//! detected group lies within one size bucket, so its members' sizes
//! agree with each other and with the bucket's size key; all members
//! share one digest; and the canonical file is always the member with
//! the lowest discovery index, whatever order the hashing outcomes
//! arrived in.

use vstd::prelude::*;
use crate::dedup::detected_groups_model;
use crate::dup_grouper::{
    big_pred, bucket_groups_model, digest_filter, digest_key, distinct_digests, group_fn,
    group_of, groups_model, kept_raw, raw_groups,
};
use crate::hasher::{attach_fn, attach_model, hashed_buckets, hashed_members, ok_pred};
use crate::record::{
    BucketModel, EntryModel, GroupModel, OutcomeModel, RecordModel, ascending_indices,
    bucket_sized,
};
use crate::scanner::{lemma_scan_indices, scan_model};
use crate::seq_util::{key_filter, lemma_key_filter_element, lemma_key_filter_push};
use crate::size_grouper::{buckets_model, distinct_sizes, kept_buckets, raw_buckets, size_filter,
    size_key};

verus! {

/// All members of a group: the canonical file, then the duplicates.
pub open spec fn group_members(g: GroupModel) -> Seq<RecordModel> {
    seq![g.canonical] + g.duplicates
}

/// Every member of group `g` has byte size `sz`.
pub open spec fn group_uniform_size(g: GroupModel, sz: u64) -> bool {
    &&& g.canonical.size == sz
    &&& forall|k: int| 0 <= k < g.duplicates.len() ==> (#[trigger] g.duplicates[k]).size == sz
}

/// The scanner's records stand in strictly ascending discovery order.
/// The bound is a machine limit: in-memory listings always satisfy it.
pub proof fn lemma_scan_ascending(entries: Seq<EntryModel>)
    requires
        entries.len() <= u64::MAX,
    ensures
        ascending_indices(scan_model(entries)),
{
    lemma_scan_indices(entries);
    let rs = scan_model(entries);
    assert forall|a: int, b: int| 0 <= a < b < rs.len() implies #[trigger] rs[a].discovery_index
        < #[trigger] rs[b].discovery_index by {
        assert(rs[a].discovery_index == a as u64);
        assert(rs[b].discovery_index == b as u64);
    }
}

/// Filtering by key keeps ascending discovery order.
proof fn lemma_key_filter_ascending<K>(ms: Seq<RecordModel>, key: spec_fn(RecordModel) -> K, k: K)
    requires
        ascending_indices(ms),
    ensures
        ascending_indices(key_filter(ms, key, k)),
    decreases ms.len(),
{
    if ms.len() != 0 {
        let prev = ms.drop_last();
        let last = ms.last();
        assert forall|a: int, b: int| 0 <= a < b < prev.len() implies #[trigger] prev[a].discovery_index
            < #[trigger] prev[b].discovery_index by {
            assert(prev[a] == ms[a]);
            assert(prev[b] == ms[b]);
        }
        lemma_key_filter_ascending(prev, key, k);
        assert(prev.push(last) =~= ms);
        lemma_key_filter_push(prev, key, last, k);
        let f = key_filter(ms, key, k);
        let fp = key_filter(prev, key, k);
        if key(last) == k {
            assert(f == fp.push(last));
            assert forall|a: int, b: int| 0 <= a < b < f.len() implies #[trigger] f[a].discovery_index
                < #[trigger] f[b].discovery_index by {
                if b < fp.len() {
                    assert(f[a] == fp[a]);
                    assert(f[b] == fp[b]);
                } else {
                    assert(f[b] == last);
                    assert(f[a] == fp[a]);
                    lemma_key_filter_element(prev, key, k, a);
                    let w = choose|w: int| 0 <= w < prev.len() && prev[w] == fp[a];
                    assert(prev[w] == ms[w]);
                    assert(ms[w].discovery_index < ms[ms.len() - 1].discovery_index);
                }
            }
        } else {
            assert(f == fp);
        }
    }
}

/// Filtering by an arbitrary predicate keeps ascending discovery order.
proof fn lemma_filter_ascending(ms: Seq<RecordModel>, pred: spec_fn(RecordModel) -> bool)
    requires
        ascending_indices(ms),
    ensures
        ascending_indices(ms.filter(pred)),
    decreases ms.len(),
{
    broadcast use Seq::<_>::lemma_filter_push;
    broadcast use Seq::<_>::lemma_filter_contains_rev;

    if ms.len() != 0 {
        let prev = ms.drop_last();
        let last = ms.last();
        assert forall|a: int, b: int| 0 <= a < b < prev.len() implies #[trigger] prev[a].discovery_index
            < #[trigger] prev[b].discovery_index by {
            assert(prev[a] == ms[a]);
            assert(prev[b] == ms[b]);
        }
        lemma_filter_ascending(prev, pred);
        assert(prev.push(last) =~= ms);
        let f = ms.filter(pred);
        let fp = prev.filter(pred);
        if pred(last) {
            assert(f == fp.push(last));
            assert forall|a: int, b: int| 0 <= a < b < f.len() implies #[trigger] f[a].discovery_index
                < #[trigger] f[b].discovery_index by {
                if b < fp.len() {
                    assert(f[a] == fp[a]);
                    assert(f[b] == fp[b]);
                } else {
                    assert(f[b] == last);
                    assert(f[a] == fp[a]);
                    assert(fp.contains(fp[a]));
                    assert(prev.contains(fp[a]));
                    let w = choose|w: int| 0 <= w < prev.len() && prev[w] == fp[a];
                    assert(prev[w] == ms[w]);
                    assert(ms[w].discovery_index < ms[ms.len() - 1].discovery_index);
                }
            }
        } else {
            assert(f == fp);
        }
    }
}

/// Every kept size bucket holds at least two members, all of the
/// bucket's size, in ascending discovery order.
pub proof fn lemma_buckets_model_wf(rs: Seq<RecordModel>)
    requires
        ascending_indices(rs),
    ensures
        forall|i: int|
            0 <= i < buckets_model(rs).len() ==> {
                let b = #[trigger] buckets_model(rs)[i];
                &&& bucket_sized(b)
                &&& ascending_indices(b.members)
                &&& b.members.len() >= 2
            },
{
    broadcast use vstd::seq_lib::group_filter_ensures;
    broadcast use Seq::<_>::lemma_filter_contains_rev;

    assert forall|i: int| 0 <= i < buckets_model(rs).len() implies {
        let b = #[trigger] buckets_model(rs)[i];
        &&& bucket_sized(b)
        &&& ascending_indices(b.members)
        &&& b.members.len() >= 2
    } by {
        let b = buckets_model(rs)[i];
        let kb = kept_buckets(raw_buckets(rs));
        assert(kb.contains(kb[i]));
        assert(raw_buckets(rs).contains(kb[i]));
        let w = choose|w: int| 0 <= w < raw_buckets(rs).len() && raw_buckets(rs)[w] == kb[i];
        assert(b == raw_buckets(rs)[w]);
        assert(b.members == size_filter(rs, distinct_sizes(rs)[w]));
        assert(b.size == distinct_sizes(rs)[w]);
        assert forall|m: int| 0 <= m < b.members.len() implies (#[trigger] b.members[m]).size
            == b.size by {
            lemma_key_filter_element(rs, size_key(), b.size, m);
        }
        lemma_key_filter_ascending(rs, size_key(), b.size);
        assert(b.members.len() >= 2);
    }
}

/// Reattaching digests keeps each bucket's size agreement and the
/// ascending discovery order of its members.
pub proof fn lemma_hashed_buckets_wf(bs: Seq<BucketModel>, ov: Seq<OutcomeModel>)
    requires
        forall|i: int|
            0 <= i < bs.len() ==> bucket_sized(#[trigger] bs[i]) && ascending_indices(
                bs[i].members,
            ),
    ensures
        forall|i: int|
            0 <= i < hashed_buckets(bs, ov).len() ==> bucket_sized(
                #[trigger] hashed_buckets(bs, ov)[i],
            ) && ascending_indices(hashed_buckets(bs, ov)[i].members),
{
    broadcast use vstd::seq_lib::group_filter_ensures;
    broadcast use Seq::<_>::lemma_filter_contains_rev;

    assert forall|i: int| 0 <= i < hashed_buckets(bs, ov).len() implies bucket_sized(
        #[trigger] hashed_buckets(bs, ov)[i],
    ) && ascending_indices(hashed_buckets(bs, ov)[i].members) by {
        let hb = hashed_buckets(bs, ov)[i];
        let ms = bs[i].members;
        let filtered = ms.filter(ok_pred(ov));
        assert(hb.members == hashed_members(ms, ov));
        assert(hb.size == bs[i].size);
        lemma_filter_ascending(ms, ok_pred(ov));
        assert forall|m: int| 0 <= m < hb.members.len() implies (#[trigger] hb.members[m]).size
            == hb.size && hb.members[m].discovery_index == filtered[m].discovery_index by {
            assert(hb.members[m] == attach_fn(ov)(filtered[m]));
            assert(hb.members[m] == attach_model(ov, filtered[m]));
            assert(filtered.contains(filtered[m]));
            assert(ms.contains(filtered[m]));
            let w = choose|w: int| 0 <= w < ms.len() && ms[w] == filtered[m];
            assert(ms[w].size == bs[i].size);
        }
        assert forall|a: int, b: int| 0 <= a < b < hb.members.len()
            implies #[trigger] hb.members[a].discovery_index
                < #[trigger] hb.members[b].discovery_index by {
            assert(hb.members[a].discovery_index == filtered[a].discovery_index);
            assert(hb.members[b].discovery_index == filtered[b].discovery_index);
            assert(filtered[a].discovery_index < filtered[b].discovery_index);
        }
    }
}

/// Every detected group is the digest filter of one bucket's member
/// list, at least two strong.
proof fn lemma_group_from_bucket(bs: Seq<BucketModel>, i: int)
    requires
        0 <= i < groups_model(bs).len(),
    ensures
        exists|j: int, d: Option<Seq<u8>>|
            0 <= j < bs.len() && group_members(groups_model(bs)[i]) == #[trigger] digest_filter(
                bs[j].members,
                d,
            ) && digest_filter(bs[j].members, d).len() >= 2,
    decreases bs.len(),
{
    broadcast use vstd::seq_lib::group_filter_ensures;
    broadcast use Seq::<_>::lemma_filter_contains_rev;

    if bs.len() != 0 {
        let prefix = bs.drop_last();
        let own = bucket_groups_model(bs.last().members);
        if i < groups_model(prefix).len() {
            lemma_group_from_bucket(prefix, i);
            assert(groups_model(bs)[i] == groups_model(prefix)[i]);
            let (j, d) = choose|j: int, d: Option<Seq<u8>>|
                0 <= j < prefix.len() && group_members(groups_model(prefix)[i]) == digest_filter(
                    prefix[j].members,
                    d,
                ) && digest_filter(prefix[j].members, d).len() >= 2;
            assert(bs[j] == prefix[j]);
            assert(group_members(groups_model(bs)[i]) == digest_filter(bs[j].members, d)
                && digest_filter(bs[j].members, d).len() >= 2);
        } else {
            let t = i - groups_model(prefix).len();
            let ms = bs.last().members;
            let kr = kept_raw(raw_groups(ms));
            assert(groups_model(bs)[i] == own[t]);
            assert(own[t] == group_fn()(kr[t]));
            assert(own[t] == group_of(kr[t]));
            assert(kr.contains(kr[t]));
            assert(raw_groups(ms).contains(kr[t]));
            let w = choose|w: int| 0 <= w < raw_groups(ms).len() && raw_groups(ms)[w] == kr[t];
            assert(kr[t] == digest_filter(ms, distinct_digests(ms)[w]));
            assert(big_pred()(kr[t]));
            assert(kr[t].len() >= 2);
            assert(group_members(group_of(kr[t])) =~= kr[t]);
            let j = bs.len() - 1;
            assert(bs[j].members == ms);
            assert(group_members(groups_model(bs)[i]) == digest_filter(bs[j].members,
                distinct_digests(ms)[w]) && digest_filter(bs[j].members,
                distinct_digests(ms)[w]).len() >= 2);
        }
    }
}

/// LAW — size agreement: in every detected group, the canonical file's
/// size, every duplicate's size, and the size key of the bucket the
/// group arose from all coincide.
pub proof fn lemma_group_sizes_match(bs: Seq<BucketModel>, i: int)
    requires
        forall|j: int| 0 <= j < bs.len() ==> bucket_sized(#[trigger] bs[j]),
        0 <= i < groups_model(bs).len(),
    ensures
        exists|j: int|
            0 <= j < bs.len() && group_uniform_size(groups_model(bs)[i], (#[trigger] bs[j]).size),
{
    lemma_group_from_bucket(bs, i);
    let (j, d) = choose|j: int, d: Option<Seq<u8>>|
        0 <= j < bs.len() && group_members(groups_model(bs)[i]) == digest_filter(
            bs[j].members,
            d,
        ) && digest_filter(bs[j].members, d).len() >= 2;
    let g = groups_model(bs)[i];
    let gm = group_members(g);
    assert forall|m: int| 0 <= m < gm.len() implies (#[trigger] gm[m]).size == bs[j].size by {
        lemma_key_filter_element(bs[j].members, digest_key(), d, m);
        let w = choose|w: int| 0 <= w < bs[j].members.len() && bs[j].members[w] == gm[m];
        assert(bs[j].members[w].size == bs[j].size);
    }
    assert(g.canonical == gm[0]);
    assert forall|k: int| 0 <= k < g.duplicates.len() implies (#[trigger] g.duplicates[k]).size
        == bs[j].size by {
        assert(g.duplicates[k] == gm[k + 1]);
    }
    assert(group_uniform_size(g, bs[j].size));
}

/// LAW — digest agreement: every duplicate of a detected group bears
/// exactly the canonical file's digest.
pub proof fn lemma_group_digests_match(bs: Seq<BucketModel>, i: int)
    requires
        0 <= i < groups_model(bs).len(),
    ensures
        forall|k: int|
            0 <= k < groups_model(bs)[i].duplicates.len()
                ==> (#[trigger] groups_model(bs)[i].duplicates[k]).digest
                    == groups_model(bs)[i].canonical.digest,
{
    lemma_group_from_bucket(bs, i);
    let (j, d) = choose|j: int, d: Option<Seq<u8>>|
        0 <= j < bs.len() && group_members(groups_model(bs)[i]) == digest_filter(
            bs[j].members,
            d,
        ) && digest_filter(bs[j].members, d).len() >= 2;
    let g = groups_model(bs)[i];
    let gm = group_members(g);
    assert forall|m: int| 0 <= m < gm.len() implies (#[trigger] gm[m]).digest == d by {
        lemma_key_filter_element(bs[j].members, digest_key(), d, m);
    }
    assert(g.canonical == gm[0]);
    assert forall|k: int| 0 <= k < g.duplicates.len() implies (#[trigger] g.duplicates[k]).digest
        == g.canonical.digest by {
        assert(g.duplicates[k] == gm[k + 1]);
    }
}

/// LAW — deterministic canonical selection: with members in ascending
/// discovery order, the canonical of every detected group carries a
/// strictly lower discovery index than each of its duplicates, and the
/// duplicates keep ascending order. The lowest discovery index wins,
/// independent of any internal iteration order.
pub proof fn lemma_canonical_lowest(bs: Seq<BucketModel>, i: int)
    requires
        forall|j: int| 0 <= j < bs.len() ==> ascending_indices((#[trigger] bs[j]).members),
        0 <= i < groups_model(bs).len(),
    ensures
        forall|k: int|
            0 <= k < groups_model(bs)[i].duplicates.len()
                ==> groups_model(bs)[i].canonical.discovery_index
                    < (#[trigger] groups_model(bs)[i].duplicates[k]).discovery_index,
        ascending_indices(groups_model(bs)[i].duplicates),
{
    lemma_group_from_bucket(bs, i);
    let (j, d) = choose|j: int, d: Option<Seq<u8>>|
        0 <= j < bs.len() && group_members(groups_model(bs)[i]) == digest_filter(
            bs[j].members,
            d,
        ) && digest_filter(bs[j].members, d).len() >= 2;
    lemma_key_filter_ascending(bs[j].members, digest_key(), d);
    let g = groups_model(bs)[i];
    let gm = group_members(g);
    assert(ascending_indices(gm));
    assert(g.canonical == gm[0]);
    assert forall|k: int| 0 <= k < g.duplicates.len()
        implies g.canonical.discovery_index
            < (#[trigger] g.duplicates[k]).discovery_index by {
        assert(g.duplicates[k] == gm[k + 1]);
        assert(gm[0].discovery_index < gm[k + 1].discovery_index);
    }
    assert forall|a: int, b: int| 0 <= a < b < g.duplicates.len()
        implies #[trigger] g.duplicates[a].discovery_index
            < #[trigger] g.duplicates[b].discovery_index by {
        assert(g.duplicates[a] == gm[a + 1]);
        assert(g.duplicates[b] == gm[b + 1]);
        assert(gm[a + 1].discovery_index < gm[b + 1].discovery_index);
    }
}

/// LAW — the whole detection pipeline: for records in ascending
/// discovery order (as the scanner yields them), every detected group
/// holds at least two files, has all member sizes equal to the
/// canonical's, all digests equal to the canonical's, and the canonical
/// strictly first by discovery index.
pub proof fn lemma_detection_wf(rv: Seq<RecordModel>, ov: Seq<OutcomeModel>, i: int)
    requires
        ascending_indices(rv),
        0 <= i < detected_groups_model(rv, ov).len(),
    ensures
        detected_groups_model(rv, ov)[i].duplicates.len() >= 1,
        group_uniform_size(
            detected_groups_model(rv, ov)[i],
            detected_groups_model(rv, ov)[i].canonical.size,
        ),
        forall|k: int|
            0 <= k < detected_groups_model(rv, ov)[i].duplicates.len()
                ==> (#[trigger] detected_groups_model(rv, ov)[i].duplicates[k]).digest
                    == detected_groups_model(rv, ov)[i].canonical.digest,
        forall|k: int|
            0 <= k < detected_groups_model(rv, ov)[i].duplicates.len()
                ==> detected_groups_model(rv, ov)[i].canonical.discovery_index
                    < (#[trigger] detected_groups_model(rv, ov)[i].duplicates[k]).discovery_index,
{
    lemma_buckets_model_wf(rv);
    let hb = hashed_buckets(buckets_model(rv), ov);
    lemma_hashed_buckets_wf(buckets_model(rv), ov);
    lemma_group_sizes_match(hb, i);
    lemma_group_digests_match(hb, i);
    lemma_canonical_lowest(hb, i);
    let g = groups_model(hb)[i];
    let (j) = choose|j: int| 0 <= j < hb.len() && group_uniform_size(g, hb[j].size);
    assert(g.canonical.size == hb[j].size);
    lemma_group_from_bucket(hb, i);
    let (w, d) = choose|w: int, d: Option<Seq<u8>>|
        0 <= w < hb.len() && group_members(groups_model(hb)[i]) == digest_filter(
            hb[w].members,
            d,
        ) && digest_filter(hb[w].members, d).len() >= 2;
    assert(group_members(g).len() >= 2);
}

} // verus!
