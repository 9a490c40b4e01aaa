//! The aggregate outcome of one run: groups found, duplicates processed,
//! bytes reclaimable, and every isolated per-file failure. Built once
//! detection and disposition have completed, and never mutated after.

use vstd::prelude::*;
use crate::record::{DuplicateGroup, Failure, FailureModel, GroupModel, RecordModel};

verus! {

/// Aggregate counters and failures of one run.
#[derive(Debug)]
pub struct RunOutcome {
    /// How many duplicate groups detection found.
    pub groups_found: u64,
    /// How many duplicates a disposition step was planned for.
    pub duplicates_processed: u64,
    /// The byte sizes of every duplicate across all groups, summed.
    pub bytes_reclaimable: u64,
    /// Every per-file failure, hashing failures first, then disposition
    /// failures, each in encounter order.
    pub failures: Vec<Failure>,
}

/// Mathematical image of a `RunOutcome`.
#[verifier::ext_equal]
pub struct RunOutcomeModel {
    pub groups_found: u64,
    pub duplicates_processed: u64,
    pub bytes_reclaimable: u64,
    pub failures: Seq<FailureModel>,
}

impl View for RunOutcome {
    type V = RunOutcomeModel;

    open spec fn view(&self) -> RunOutcomeModel {
        RunOutcomeModel {
            groups_found: self.groups_found,
            duplicates_processed: self.duplicates_processed,
            bytes_reclaimable: self.bytes_reclaimable,
            failures: self.failures.deep_view(),
        }
    }
}

impl DeepView for RunOutcome {
    type V = RunOutcomeModel;

    open spec fn deep_view(&self) -> RunOutcomeModel {
        self.view()
    }
}

/// The summed byte sizes of the records of `ds`.
pub open spec fn seq_bytes(ds: Seq<RecordModel>) -> int
    decreases ds.len(),
{
    if ds.len() == 0 {
        0
    } else {
        seq_bytes(ds.drop_last()) + ds.last().size
    }
}

/// The byte size of every duplicate across all of `groups`, summed.
pub open spec fn total_bytes(groups: Seq<GroupModel>) -> int
    decreases groups.len(),
{
    if groups.len() == 0 {
        0
    } else {
        total_bytes(groups.drop_last()) + seq_bytes(groups.last().duplicates)
    }
}

/// The number of duplicates across all of `groups`.
pub open spec fn total_duplicates(groups: Seq<GroupModel>) -> int
    decreases groups.len(),
{
    if groups.len() == 0 {
        0
    } else {
        total_duplicates(groups.drop_last()) + groups.last().duplicates.len()
    }
}

proof fn lemma_seq_bytes_nonneg(ds: Seq<RecordModel>)
    ensures
        seq_bytes(ds) >= 0,
    decreases ds.len(),
{
    if ds.len() != 0 {
        lemma_seq_bytes_nonneg(ds.drop_last());
    }
}

proof fn lemma_seq_bytes_take_succ(ds: Seq<RecordModel>, j: int)
    requires
        0 <= j < ds.len(),
    ensures
        seq_bytes(ds.take(j + 1)) == seq_bytes(ds.take(j)) + ds[j].size,
{
    assert(ds.take(j + 1).drop_last() =~= ds.take(j));
    assert(ds.take(j + 1).last() == ds[j]);
}

proof fn lemma_seq_bytes_prefix_le(ds: Seq<RecordModel>, j: int)
    requires
        0 <= j <= ds.len(),
    ensures
        seq_bytes(ds.take(j)) <= seq_bytes(ds),
    decreases ds.len() - j,
{
    if j == ds.len() {
        assert(ds.take(j) =~= ds);
    } else {
        lemma_seq_bytes_take_succ(ds, j);
        lemma_seq_bytes_prefix_le(ds, j + 1);
    }
}

proof fn lemma_total_bytes_take_succ(gs: Seq<GroupModel>, k: int)
    requires
        0 <= k < gs.len(),
    ensures
        total_bytes(gs.take(k + 1)) == total_bytes(gs.take(k)) + seq_bytes(gs[k].duplicates),
        total_duplicates(gs.take(k + 1)) == total_duplicates(gs.take(k)) + gs[k].duplicates.len(),
{
    assert(gs.take(k + 1).drop_last() =~= gs.take(k));
    assert(gs.take(k + 1).last() == gs[k]);
}

proof fn lemma_total_bytes_prefix_le(gs: Seq<GroupModel>, k: int)
    requires
        0 <= k <= gs.len(),
    ensures
        total_bytes(gs.take(k)) <= total_bytes(gs),
        total_duplicates(gs.take(k)) <= total_duplicates(gs),
    decreases gs.len() - k,
{
    if k == gs.len() {
        assert(gs.take(k) =~= gs);
    } else {
        lemma_total_bytes_take_succ(gs, k);
        lemma_seq_bytes_nonneg(gs[k].duplicates);
        lemma_total_bytes_prefix_le(gs, k + 1);
    }
}

/// Builds the run's outcome: the group count, the number of duplicates
/// processed, the reclaimable bytes — exactly the summed size of every
/// duplicate across all groups — and all per-file failures, hashing
/// failures first. The counter bounds are machine limits: the sums must
/// fit the counters' width.
pub fn build_outcome(
    groups: &Vec<DuplicateGroup>,
    hash_failures: Vec<Failure>,
    disposition_failures: Vec<Failure>,
) -> (outcome: RunOutcome)
    requires
        groups.deep_view().len() <= u64::MAX,
        total_duplicates(groups.deep_view()) <= u64::MAX,
        total_bytes(groups.deep_view()) <= u64::MAX,
    ensures
        outcome.groups_found == groups.deep_view().len(),
        outcome.duplicates_processed == total_duplicates(groups.deep_view()),
        outcome.bytes_reclaimable == total_bytes(groups.deep_view()),
        outcome.failures.deep_view() == hash_failures.deep_view()
            + disposition_failures.deep_view(),
{
    let ghost gv = groups.deep_view();
    let mut bytes: u64 = 0;
    let mut dups: u64 = 0;
    let mut i: usize = 0;
    while i < groups.len()
        invariant
            gv == groups.deep_view(),
            i <= gv.len(),
            total_duplicates(gv) <= u64::MAX,
            total_bytes(gv) <= u64::MAX,
            bytes == total_bytes(gv.take(i as int)),
            dups == total_duplicates(gv.take(i as int)),
        decreases gv.len() - i,
    {
        let g = &groups[i];
        let ghost ds = gv[i as int].duplicates;
        proof {
            assert(g@ == gv[i as int]);
        }
        let mut j: usize = 0;
        while j < g.duplicates.len()
            invariant
                gv == groups.deep_view(),
                0 <= i < gv.len(),
                g@ == gv[i as int],
                ds == gv[i as int].duplicates,
                j <= ds.len(),
                total_bytes(gv) <= u64::MAX,
                bytes == total_bytes(gv.take(i as int)) + seq_bytes(ds.take(j as int)),
            decreases ds.len() - j,
        {
            let d = &g.duplicates[j];
            proof {
                assert(d@ == ds[j as int]);
                lemma_seq_bytes_take_succ(ds, j as int);
                lemma_seq_bytes_prefix_le(ds, j as int + 1);
                lemma_total_bytes_take_succ(gv, i as int);
                lemma_total_bytes_prefix_le(gv, i as int + 1);
                lemma_total_bytes_prefix_le(gv, i as int);
            }
            bytes = bytes + d.size;
            j += 1;
        }
        proof {
            assert(ds.take(ds.len() as int) =~= ds);
            lemma_total_bytes_take_succ(gv, i as int);
            lemma_total_bytes_prefix_le(gv, i as int + 1);
        }
        dups = dups + (g.duplicates.len() as u64);
        i += 1;
    }
    proof {
        assert(gv.take(gv.len() as int) =~= gv);
    }
    let mut failures = hash_failures;
    let ghost hf = failures.deep_view();
    let mut rest = disposition_failures;
    let ghost df = rest.deep_view();
    failures.append(&mut rest);
    proof {
        assert(failures.deep_view() =~= hf + df);
    }
    RunOutcome {
        groups_found: groups.len() as u64,
        duplicates_processed: dups,
        bytes_reclaimable: bytes,
        failures,
    }
}

} // verus!
