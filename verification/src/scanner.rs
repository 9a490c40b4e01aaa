//! Scanner indexing: turning the walker's flat listing into file records.
//!
//! The surrounding process walks the root directory (recursively or at
//! depth one), keeps regular files only, and hands the listing over as
//! plain (path, size) entries in traversal order. This stage tags each
//! entry with its strictly increasing discovery index — the sole source
//! of first-occurrence ordering for everything downstream. A root that
//! cannot be read at all is a fatal `ScanError`, raised by the walking
//! side before this stage runs; per-entry read errors are skipped there
//! and never reach the pipeline.

use vstd::prelude::*;
use crate::record::{EntryModel, FileRecord, RecordModel, ScanEntry};

verus! {

/// Why a scan could not start at all.
#[derive(Clone, Copy, Debug, PartialEq, Eq, Structural)]
pub enum ScanError {
    /// The root path does not name a directory.
    NotADirectory,
    /// The root directory itself cannot be read.
    RootUnreadable,
}

/// The records made from `entries`: paths and sizes kept, each entry
/// tagged with its position as discovery index, no digest yet.
pub open spec fn scan_model(entries: Seq<EntryModel>) -> Seq<RecordModel>
    decreases entries.len(),
{
    if entries.len() == 0 {
        Seq::empty()
    } else {
        scan_model(entries.drop_last()).push(
            RecordModel {
                path: entries.last().path,
                size: entries.last().size,
                discovery_index: (entries.len() - 1) as u64,
                digest: None,
            },
        )
    }
}

/// Every record made from `entries` sits at the position its discovery
/// index names.
pub proof fn lemma_scan_indices(entries: Seq<EntryModel>)
    ensures
        scan_model(entries).len() == entries.len(),
        forall|t: int|
            0 <= t < entries.len() ==> #[trigger] scan_model(entries)[t] == (RecordModel {
                path: entries[t].path,
                size: entries[t].size,
                discovery_index: t as u64,
                digest: None,
            }),
    decreases entries.len(),
{
    if entries.len() != 0 {
        lemma_scan_indices(entries.drop_last());
    }
}

/// Tags the walker's entries, in traversal order, with strictly
/// increasing discovery indices, yielding the pipeline's file records.
pub fn index_entries(entries: &Vec<ScanEntry>) -> (records: Vec<FileRecord>)
    ensures
        records.deep_view() == scan_model(entries.deep_view()),
{
    let ghost ev = entries.deep_view();
    let mut records: Vec<FileRecord> = Vec::new();
    let mut i: usize = 0;
    while i < entries.len()
        invariant
            ev == entries.deep_view(),
            i <= ev.len(),
            records@.len() == i,
            records.deep_view() == scan_model(ev.take(i as int)),
        decreases ev.len() - i,
    {
        let e = &entries[i];
        let r = FileRecord {
            path: e.path.clone(),
            size: e.size,
            discovery_index: i as u64,
            digest: None,
        };
        records.push(r);
        proof {
            assert(ev.take(i as int + 1).drop_last() =~= ev.take(i as int));
            assert(ev.take(i as int + 1).last() == ev[i as int]);
            assert(records.deep_view() =~= scan_model(ev.take(i as int + 1)));
        }
        i += 1;
    }
    proof {
        assert(ev.take(ev.len() as int) =~= ev);
    }
    records
}

} // verus!
