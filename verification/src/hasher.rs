//! Content hashing: the two interchangeable fingerprint strategies.
//!
//! `Full` digests the entire file content. `Quick` digests the decimal
//! rendering of the file size followed by the first `QUICK_PREFIX_LEN`
//! bytes of content; it is a deliberately weaker, cheaper fingerprint:
//! two files of equal size whose contents agree on that prefix receive
//! equal quick fingerprints even if they differ beyond it. Quick equality
//! must therefore never be read as full-content equality.

use vstd::prelude::*;
use sha2::Digest;
use crate::record::{
    BucketModel, Failure, FailureModel, FileRecord, HashOutcome, OutcomeModel, RecordModel,
    SizeBucket, clone_bytes,
};

verus! {

/// Number of leading content bytes a quick fingerprint covers.
pub const QUICK_PREFIX_LEN: u64 = 1024 * 1024;

/// How file content is fingerprinted.
#[derive(Clone, Copy, Debug, PartialEq, Eq, Structural)]
pub enum HashStrategy {
    /// Digest of the whole content.
    Full,
    /// Digest of the size and the first `QUICK_PREFIX_LEN` content bytes.
    Quick,
}

/// The 32-byte SHA-256 digest of a byte sequence, named but not written
/// out: it is a function of the input bytes alone.
pub uninterp spec fn sha256_of(data: Seq<u8>) -> Seq<u8>;

/// Relies on `sha2::Sha256::digest`: the 32-byte SHA-256 digest of the
/// input, a function of the input bytes alone.
#[verifier::external_body]
fn sha256_bytes(data: &[u8]) -> (r: Vec<u8>)
    ensures
        r@ == sha256_of(data@),
        r@.len() == 32,
{
    sha2::Sha256::digest(data).to_vec()
}

/// The ASCII decimal digits of `n`, most significant first.
pub open spec fn dec_digits(n: nat) -> Seq<u8>
    decreases n,
{
    if n < 10 {
        seq![(48 + n) as u8]
    } else {
        dec_digits(n / 10).push((48 + n % 10) as u8)
    }
}

/// The bytes a quick fingerprint of a file of size `size` digests, given
/// the `prefix` of its content that was read.
pub open spec fn quick_source(size: u64, prefix: Seq<u8>) -> Seq<u8> {
    dec_digits(size as nat) + prefix
}

/// The fingerprint of a file of byte size `size` whose read content bytes
/// are `data`: for `Full`, `data` is the whole content; for `Quick`, the
/// prefix of it that `bytes_needed` asked for.
pub open spec fn fingerprint_model(strategy: HashStrategy, size: u64, data: Seq<u8>) -> Seq<u8> {
    match strategy {
        HashStrategy::Full => sha256_of(data),
        HashStrategy::Quick => sha256_of(quick_source(size, data)),
    }
}

/// How many content bytes the strategy reads from a file of size `size`.
pub open spec fn bytes_needed_model(strategy: HashStrategy, size: u64) -> u64 {
    match strategy {
        HashStrategy::Full => size,
        HashStrategy::Quick => if size < QUICK_PREFIX_LEN {
            size
        } else {
            QUICK_PREFIX_LEN
        },
    }
}

/// Says how many leading content bytes must be read and handed to
/// `compute_fingerprint` for a file of size `size`: all of them under
/// `Full`, at most `QUICK_PREFIX_LEN` under `Quick`.
pub fn bytes_needed(strategy: HashStrategy, size: u64) -> (n: u64)
    ensures
        n == bytes_needed_model(strategy, size),
{
    match strategy {
        HashStrategy::Full => size,
        HashStrategy::Quick => {
            if size < QUICK_PREFIX_LEN {
                size
            } else {
                QUICK_PREFIX_LEN
            }
        },
    }
}

/// The ASCII decimal rendering of `n`.
fn decimal_bytes(n: u64) -> (r: Vec<u8>)
    ensures
        r@ == dec_digits(n as nat),
    decreases n,
{
    if n < 10 {
        let mut v: Vec<u8> = Vec::new();
        v.push(48 + n as u8);
        proof {
            assert(v@ =~= dec_digits(n as nat));
        }
        v
    } else {
        let mut v = decimal_bytes(n / 10);
        v.push(48 + (n % 10) as u8);
        v
    }
}

/// Computes the content fingerprint of one file of byte size `size` from
/// its read bytes `data`: the whole content under `Full`, the leading
/// `bytes_needed(Quick, size)` bytes under `Quick`. The quick fingerprint
/// is a function of the size and that prefix alone — a weaker guarantee
/// than full-content equality.
pub fn compute_fingerprint(strategy: HashStrategy, size: u64, data: &[u8]) -> (d: Vec<u8>)
    ensures
        d@ == fingerprint_model(strategy, size, data@),
        d@.len() == 32,
{
    match strategy {
        HashStrategy::Full => sha256_bytes(data),
        HashStrategy::Quick => {
            let mut buf = decimal_bytes(size);
            let mut i: usize = 0;
            while i < data.len()
                invariant
                    i <= data@.len(),
                    buf@ == dec_digits(size as nat) + data@.take(i as int),
                decreases data@.len() - i,
            {
                buf.push(data[i]);
                proof {
                    assert(data@.take(i + 1 as int) =~= data@.take(i as int).push(data@[i as int]));
                    assert(buf@ =~= dec_digits(size as nat) + data@.take(i + 1 as int));
                }
                i += 1;
            }
            proof {
                assert(data@.take(data@.len() as int) =~= data@);
            }
            sha256_bytes(buf.as_slice())
        },
    }
}

/// LAW — the quick strategy is cheaper on large files: past the prefix
/// threshold it reads exactly `QUICK_PREFIX_LEN` bytes where the full
/// strategy reads the whole file.
pub proof fn lemma_quick_reads_fewer(size: u64)
    requires
        size > QUICK_PREFIX_LEN,
    ensures
        bytes_needed_model(HashStrategy::Quick, size) == QUICK_PREFIX_LEN,
        bytes_needed_model(HashStrategy::Full, size) == size,
        bytes_needed_model(HashStrategy::Quick, size) < bytes_needed_model(
            HashStrategy::Full,
            size,
        ),
{
}

/// LAW — the quick strategy's weaker guarantee, stated as what it is:
/// the quick fingerprint is a function of the file size and the read
/// prefix alone. Two files of one size whose contents agree on the
/// first `bytes_needed(Quick, size)` bytes receive equal quick
/// fingerprints even if they differ beyond them, so quick-fingerprint
/// equality must never be read as full-content equality.
pub proof fn lemma_quick_prefix_only(size: u64, c1: Seq<u8>, c2: Seq<u8>)
    requires
        c1.take(bytes_needed_model(HashStrategy::Quick, size) as int) == c2.take(
            bytes_needed_model(HashStrategy::Quick, size) as int,
        ),
    ensures
        fingerprint_model(
            HashStrategy::Quick,
            size,
            c1.take(bytes_needed_model(HashStrategy::Quick, size) as int),
        ) == fingerprint_model(
            HashStrategy::Quick,
            size,
            c2.take(bytes_needed_model(HashStrategy::Quick, size) as int),
        ),
{
}

/// The first outcome of `ov` keyed by `idx`, if any.
pub open spec fn find_outcome(ov: Seq<OutcomeModel>, idx: u64) -> Option<OutcomeModel>
    decreases ov.len(),
{
    if ov.len() == 0 {
        None
    } else if ov[0].discovery_index == idx {
        Some(ov[0])
    } else {
        find_outcome(ov.drop_first(), idx)
    }
}

/// Whether the worker handling record `m` reported a digest.
pub open spec fn outcome_ok(ov: Seq<OutcomeModel>, m: RecordModel) -> bool {
    match find_outcome(ov, m.discovery_index) {
        Some(o) => o.digest is Ok,
        None => false,
    }
}

/// Record `m` with the digest its worker reported attached.
pub open spec fn attach_model(ov: Seq<OutcomeModel>, m: RecordModel) -> RecordModel {
    RecordModel {
        digest: match find_outcome(ov, m.discovery_index) {
            Some(o) => match o.digest {
                Ok(d) => Some(d),
                Err(_) => None,
            },
            None => None,
        },
        ..m
    }
}

/// The failure recorded for record `m`: its path and the read error text
/// its worker reported.
pub open spec fn fail_model(ov: Seq<OutcomeModel>, m: RecordModel) -> FailureModel {
    FailureModel {
        path: m.path,
        message: match find_outcome(ov, m.discovery_index) {
            Some(o) => match o.digest {
                Ok(_) => Seq::empty(),
                Err(e) => e,
            },
            None => Seq::empty(),
        },
    }
}

/// The predicate selecting members whose hashing succeeded.
pub open spec fn ok_pred(ov: Seq<OutcomeModel>) -> spec_fn(RecordModel) -> bool {
    |m: RecordModel| outcome_ok(ov, m)
}

/// The predicate selecting members whose hashing failed.
pub open spec fn fail_pred(ov: Seq<OutcomeModel>) -> spec_fn(RecordModel) -> bool {
    |m: RecordModel| !outcome_ok(ov, m)
}

/// The map attaching each member's reported digest.
pub open spec fn attach_fn(ov: Seq<OutcomeModel>) -> spec_fn(RecordModel) -> RecordModel {
    |m: RecordModel| attach_model(ov, m)
}

/// The map recording each member's reported failure.
pub open spec fn fail_fn(ov: Seq<OutcomeModel>) -> spec_fn(RecordModel) -> FailureModel {
    |m: RecordModel| fail_model(ov, m)
}

/// The members of `ms` whose hashing succeeded, in order, digests
/// attached.
pub open spec fn hashed_members(ms: Seq<RecordModel>, ov: Seq<OutcomeModel>) -> Seq<RecordModel> {
    ms.filter(ok_pred(ov)).map_values(attach_fn(ov))
}

/// The failures of the members of `ms` whose hashing failed, in order.
pub open spec fn failed_members(ms: Seq<RecordModel>, ov: Seq<OutcomeModel>) -> Seq<FailureModel> {
    ms.filter(fail_pred(ov)).map_values(fail_fn(ov))
}

/// Bucket `b` after hashing: failed members excluded, digests attached.
pub open spec fn hashed_bucket(b: BucketModel, ov: Seq<OutcomeModel>) -> BucketModel {
    BucketModel { size: b.size, members: hashed_members(b.members, ov) }
}

/// All buckets after hashing, in order.
pub open spec fn hashed_buckets(bs: Seq<BucketModel>, ov: Seq<OutcomeModel>) -> Seq<BucketModel> {
    bs.map_values(|b: BucketModel| hashed_bucket(b, ov))
}

/// The hashing failures of all buckets, bucket order then member order.
pub open spec fn failures_model(bs: Seq<BucketModel>, ov: Seq<OutcomeModel>) -> Seq<FailureModel>
    decreases bs.len(),
{
    if bs.len() == 0 {
        Seq::empty()
    } else {
        failures_model(bs.drop_last(), ov) + failed_members(bs.last().members, ov)
    }
}

/// Every member of every bucket has an outcome keyed by its discovery
/// index: the collector reported once per scheduled file.
pub open spec fn outcomes_cover(bs: Seq<BucketModel>, ov: Seq<OutcomeModel>) -> bool {
    forall|i: int, j: int|
        0 <= i < bs.len() && 0 <= j < bs[i].members.len() ==> find_outcome(
            ov,
            (#[trigger] bs[i].members[j]).discovery_index,
        ) is Some
}

/// How the hashed members and the failures change when one member is
/// pushed.
proof fn lemma_members_push(ms: Seq<RecordModel>, ov: Seq<OutcomeModel>, m: RecordModel)
    ensures
        hashed_members(ms.push(m), ov) == if outcome_ok(ov, m) {
            hashed_members(ms, ov).push(attach_model(ov, m))
        } else {
            hashed_members(ms, ov)
        },
        failed_members(ms.push(m), ov) == if !outcome_ok(ov, m) {
            failed_members(ms, ov).push(fail_model(ov, m))
        } else {
            failed_members(ms, ov)
        },
{
    broadcast use Seq::<_>::lemma_filter_push;

    if outcome_ok(ov, m) {
        assert(hashed_members(ms.push(m), ov) =~= hashed_members(ms, ov).push(
            attach_model(ov, m),
        ));
        assert(failed_members(ms.push(m), ov) =~= failed_members(ms, ov));
    } else {
        assert(hashed_members(ms.push(m), ov) =~= hashed_members(ms, ov));
        assert(failed_members(ms.push(m), ov) =~= failed_members(ms, ov).push(
            fail_model(ov, m),
        ));
    }
}

/// Scans `outcomes` for the first one keyed by `idx`.
fn find_outcome_idx(outcomes: &Vec<HashOutcome>, idx: u64) -> (o: Option<usize>)
    ensures
        match o {
            Some(j) => j < outcomes@.len() && find_outcome(outcomes.deep_view(), idx) == Some(
                outcomes@[j as int]@,
            ),
            None => find_outcome(outcomes.deep_view(), idx) is None,
        },
{
    let ghost ov = outcomes.deep_view();
    proof {
        assert(ov.skip(0) =~= ov);
    }
    let mut j: usize = 0;
    while j < outcomes.len()
        invariant
            ov == outcomes.deep_view(),
            j <= ov.len(),
            find_outcome(ov, idx) == find_outcome(ov.skip(j as int), idx),
        decreases ov.len() - j,
    {
        proof {
            assert(ov.skip(j as int)[0] == ov[j as int]);
        }
        if outcomes[j].discovery_index == idx {
            return Some(j);
        }
        proof {
            assert(ov.skip(j as int).drop_first() =~= ov.skip(j as int + 1));
        }
        j += 1;
    }
    None
}

/// Reattaches the workers' hashing outcomes to the bucketed records by
/// discovery index — restoring determinism whatever order the outcomes
/// arrived in. A member whose worker reported a read error is excluded
/// from its bucket and recorded as a failure; everything else is
/// untouched and keeps its order.
pub fn reattach_digests(buckets: &Vec<SizeBucket>, outcomes: &Vec<HashOutcome>) -> (r: (
    Vec<SizeBucket>,
    Vec<Failure>,
))
    requires
        outcomes_cover(buckets.deep_view(), outcomes.deep_view()),
    ensures
        r.0.deep_view() == hashed_buckets(buckets.deep_view(), outcomes.deep_view()),
        r.1.deep_view() == failures_model(buckets.deep_view(), outcomes.deep_view()),
{
    let ghost bv = buckets.deep_view();
    let ghost ov = outcomes.deep_view();
    let mut hashed: Vec<SizeBucket> = Vec::new();
    let mut failures: Vec<Failure> = Vec::new();
    let mut i: usize = 0;
    while i < buckets.len()
        invariant
            bv == buckets.deep_view(),
            ov == outcomes.deep_view(),
            outcomes_cover(bv, ov),
            i <= bv.len(),
            hashed@.len() == i,
            forall|t: int| 0 <= t < i ==> #[trigger] hashed@[t]@ == hashed_bucket(bv[t], ov),
            failures@.len() == failures_model(bv.take(i as int), ov).len(),
            forall|t: int|
                0 <= t < failures@.len()
                    ==> #[trigger] failures@[t]@ == failures_model(bv.take(i as int), ov)[t],
        decreases bv.len() - i,
    {
        let b = &buckets[i];
        let ghost ms = bv[i as int].members;
        let ghost base_fail = failures@;
        proof {
            assert(b@ == bv[i as int]);
            assert forall|t: int| 0 <= t < ms.len()
                implies find_outcome(ov, (#[trigger] ms[t]).discovery_index) is Some by {
                assert(bv[i as int].members[t] == ms[t]);
            }
        }
        let mut members: Vec<FileRecord> = Vec::new();
        let mut j: usize = 0;
        while j < b.members.len()
            invariant
                ov == outcomes.deep_view(),
                b@.members == ms,
                forall|t: int|
                    0 <= t < ms.len()
                        ==> find_outcome(ov, (#[trigger] ms[t]).discovery_index) is Some,
                j <= ms.len(),
                members@.len() == hashed_members(ms.take(j as int), ov).len(),
                forall|t: int|
                    0 <= t < members@.len()
                        ==> #[trigger] members@[t]@ == hashed_members(ms.take(j as int), ov)[t],
                failures@.len() == base_fail.len() + failed_members(ms.take(j as int), ov).len(),
                forall|t: int| 0 <= t < base_fail.len() ==> #[trigger] failures@[t] == base_fail[t],
                forall|t: int|
                    base_fail.len() <= t < failures@.len()
                        ==> #[trigger] failures@[t]@ == failed_members(ms.take(j as int), ov)[t
                        - base_fail.len()],
            decreases ms.len() - j,
        {
            let rec = &b.members[j];
            proof {
                assert(rec@ == ms[j as int]);
                assert(ms.take(j as int + 1) =~= ms.take(j as int).push(ms[j as int]));
                lemma_members_push(ms.take(j as int), ov, ms[j as int]);
            }
            match find_outcome_idx(outcomes, rec.discovery_index) {
                Some(oj) => {
                    let oc = &outcomes[oj];
                    proof {
                        assert(oc@ == ov[oj as int]);
                    }
                    match &oc.digest {
                        Ok(dg) => {
                            let nr = FileRecord {
                                path: rec.path.clone(),
                                size: rec.size,
                                discovery_index: rec.discovery_index,
                                digest: Some(clone_bytes(dg)),
                            };
                            proof {
                                assert(nr@ =~= attach_model(ov, ms[j as int]));
                            }
                            members.push(nr);
                        },
                        Err(e) => {
                            let f = Failure { path: rec.path.clone(), message: e.clone() };
                            proof {
                                assert(f@ =~= fail_model(ov, ms[j as int]));
                            }
                            failures.push(f);
                        },
                    }
                },
                None => {
                    proof {
                        assert(false);
                    }
                },
            }
            j += 1;
        }
        proof {
            assert(ms.take(ms.len() as int) =~= ms);
            assert(members.deep_view() =~= hashed_members(ms, ov));
        }
        let nb = SizeBucket { size: b.size, members };
        hashed.push(nb);
        proof {
            assert(nb@ =~= hashed_bucket(bv[i as int], ov));
            assert(bv.take(i as int + 1).drop_last() =~= bv.take(i as int));
            assert(bv.take(i as int + 1).last() == bv[i as int]);
        }
        i += 1;
    }
    proof {
        assert(bv.take(bv.len() as int) =~= bv);
        assert(hashed.deep_view() =~= hashed_buckets(bv, ov));
        assert(failures.deep_view() =~= failures_model(bv, ov));
    }
    (hashed, failures)
}

} // verus!
