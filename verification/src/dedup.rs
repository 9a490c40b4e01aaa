//! The deduplicator façade: holds a run's settings and composes the
//! pure detection pipeline — size grouping, digest reattachment,
//! duplicate grouping — on plain values. The surrounding process walks
//! the directory, reads file contents for the workers, and executes the
//! planned dispositions; nothing here touches the filesystem.

use vstd::prelude::*;
use crate::config::{DedupConfig, DuplicateAction};
use crate::dup_grouper::{group_duplicates, groups_model};
use crate::hasher::{
    HashStrategy, attach_fn, attach_model, failures_model, hashed_buckets,
    hashed_members, ok_pred, outcome_ok, outcomes_cover, reattach_digests,
};
use crate::record::{
    BucketModel, DuplicateGroup, Failure, FailureModel, FileRecord, GroupModel, HashOutcome,
    OutcomeModel, RecordModel, all_digested,
};
use crate::size_grouper::{buckets_model, group_by_size};

verus! {

/// The duplicate groups detection yields for records `rv` under hashing
/// outcomes `ov`: the records are size-grouped, the reported digests
/// reattached, and the digested buckets grouped by digest.
pub open spec fn detected_groups_model(
    rv: Seq<RecordModel>,
    ov: Seq<OutcomeModel>,
) -> Seq<GroupModel> {
    groups_model(hashed_buckets(buckets_model(rv), ov))
}

/// The hashing failures detection records along the way.
pub open spec fn detection_failures_model(
    rv: Seq<RecordModel>,
    ov: Seq<OutcomeModel>,
) -> Seq<FailureModel> {
    failures_model(buckets_model(rv), ov)
}

/// After reattachment every remaining member carries a digest.
proof fn lemma_hashed_digested(bs: Seq<BucketModel>, ov: Seq<OutcomeModel>)
    ensures
        forall|i: int|
            0 <= i < hashed_buckets(bs, ov).len() ==> all_digested(
                (#[trigger] hashed_buckets(bs, ov)[i]).members,
            ),
{
    broadcast use vstd::seq_lib::group_filter_ensures;

    assert forall|i: int|
        0 <= i < hashed_buckets(bs, ov).len() implies all_digested(
        (hashed_buckets(bs, ov)[i]).members,
    ) by {
        let ms = bs[i].members;
        let filtered = ms.filter(ok_pred(ov));
        let hms = hashed_buckets(bs, ov)[i].members;
        assert(hms == hashed_members(ms, ov));
        assert forall|t: int| 0 <= t < hms.len() implies (#[trigger] hms[t]).digest is Some by {
            assert(hms[t] == attach_fn(ov)(filtered[t]));
            assert(ok_pred(ov)(filtered[t]));
            assert(outcome_ok(ov, filtered[t]));
            assert(hms[t] == attach_model(ov, filtered[t]));
        }
    }
}

/// Runs the pure detection pipeline on the scanner's records and the
/// workers' hashing outcomes. Yields the duplicate groups — canonical
/// first, in deterministic order — and the isolated hashing failures;
/// a member whose worker reported a read error is excluded from
/// grouping, never fatal to the run.
pub fn detect_duplicates(records: &Vec<FileRecord>, outcomes: &Vec<HashOutcome>) -> (r: (
    Vec<DuplicateGroup>,
    Vec<Failure>,
))
    requires
        outcomes_cover(buckets_model(records.deep_view()), outcomes.deep_view()),
    ensures
        r.0.deep_view() == detected_groups_model(records.deep_view(), outcomes.deep_view()),
        r.1.deep_view() == detection_failures_model(records.deep_view(), outcomes.deep_view()),
{
    let buckets = group_by_size(records);
    let (hashed, failures) = reattach_digests(&buckets, outcomes);
    proof {
        lemma_hashed_digested(buckets.deep_view(), outcomes.deep_view());
    }
    let groups = group_duplicates(&hashed);
    (groups, failures)
}

/// The duplicate-detection engine: remembers whether scanning recurses,
/// which directory is being worked on, and the run's chosen options.
#[derive(Debug)]
pub struct FileDeduplicator {
    /// Whether the scan descends into subdirectories.
    pub recursive: bool,
    /// The directory under scrutiny, once chosen.
    pub input_dir: Option<String>,
    /// What happens to duplicates, once chosen.
    pub duplicate_action: Option<DuplicateAction>,
    /// How content is fingerprinted, once chosen.
    pub hash_strategy: Option<HashStrategy>,
    /// Where relocated duplicates go, when the action relocates.
    pub quarantine_dir: Option<String>,
}

impl FileDeduplicator {
    /// A fresh engine: recursion fixed, nothing else chosen yet.
    pub fn new(recursive: bool) -> (d: Self)
        ensures
            d.recursive == recursive,
            d.input_dir is None,
            d.duplicate_action is None,
            d.hash_strategy is None,
            d.quarantine_dir is None,
    {
        FileDeduplicator {
            recursive,
            input_dir: None,
            duplicate_action: None,
            hash_strategy: None,
            quarantine_dir: None,
        }
    }

    /// Whether the scan descends into subdirectories.
    pub fn is_recursive(&self) -> (r: bool)
        ensures
            r == self.recursive,
    {
        self.recursive
    }

    /// The directory under scrutiny, if one was chosen.
    pub fn get_input_dir(&self) -> (r: Option<&String>)
        ensures
            r is Some <==> self.input_dir is Some,
            r is Some ==> self.input_dir->0 == r->0,
    {
        self.input_dir.as_ref()
    }

    /// Chooses the directory to work on.
    pub fn set_input_dir(&mut self, dir: String)
        ensures
            final(self).input_dir == Some(dir),
            final(self).recursive == old(self).recursive,
            final(self).duplicate_action == old(self).duplicate_action,
            final(self).hash_strategy == old(self).hash_strategy,
            final(self).quarantine_dir == old(self).quarantine_dir,
    {
        self.input_dir = Some(dir);
    }

    /// Adopts a validated configuration for the coming run.
    pub fn configure(&mut self, config: DedupConfig)
        ensures
            final(self).duplicate_action == Some(config.action),
            final(self).hash_strategy == Some(config.strategy),
            final(self).quarantine_dir == config.quarantine_dir,
            final(self).recursive == old(self).recursive,
            final(self).input_dir == old(self).input_dir,
    {
        self.duplicate_action = Some(config.action);
        self.hash_strategy = Some(config.strategy);
        self.quarantine_dir = config.quarantine_dir;
    }
}

} // verus!
