//! The data model of the pipeline: file records, size buckets, duplicate
//! groups, hashing outcomes and per-file failures, each with a mathematical
//! view that the stage contracts are stated over.

use vstd::prelude::*;

verus! {

/// One entry produced by the directory walker: a path and a byte size.
#[derive(Debug)]
pub struct ScanEntry {
    pub path: String,
    pub size: u64,
}

/// Mathematical image of a `ScanEntry`.
#[verifier::ext_equal]
pub struct EntryModel {
    pub path: Seq<char>,
    pub size: u64,
}

impl View for ScanEntry {
    type V = EntryModel;

    open spec fn view(&self) -> EntryModel {
        EntryModel { path: self.path@, size: self.size }
    }
}

impl DeepView for ScanEntry {
    type V = EntryModel;

    open spec fn deep_view(&self) -> EntryModel {
        self.view()
    }
}

/// One regular file known to the pipeline: its path, its size in bytes, the
/// order in which the scanner found it, and, once hashing has run, its
/// content digest. The discovery index is assigned at scan time and never
/// changes; it is the sole source of first-occurrence ordering.
#[derive(Debug)]
pub struct FileRecord {
    pub path: String,
    pub size: u64,
    pub discovery_index: u64,
    pub digest: Option<Vec<u8>>,
}

/// Mathematical image of a `FileRecord`.
#[verifier::ext_equal]
pub struct RecordModel {
    pub path: Seq<char>,
    pub size: u64,
    pub discovery_index: u64,
    pub digest: Option<Seq<u8>>,
}

impl View for FileRecord {
    type V = RecordModel;

    open spec fn view(&self) -> RecordModel {
        RecordModel {
            path: self.path@,
            size: self.size,
            discovery_index: self.discovery_index,
            digest: match self.digest {
                Some(d) => Some(d@),
                None => None,
            },
        }
    }
}

impl DeepView for FileRecord {
    type V = RecordModel;

    open spec fn deep_view(&self) -> RecordModel {
        self.view()
    }
}

/// All files of one exact byte size, in discovery order.
#[derive(Debug)]
pub struct SizeBucket {
    pub size: u64,
    pub members: Vec<FileRecord>,
}

/// Mathematical image of a `SizeBucket`.
#[verifier::ext_equal]
pub struct BucketModel {
    pub size: u64,
    pub members: Seq<RecordModel>,
}

impl View for SizeBucket {
    type V = BucketModel;

    open spec fn view(&self) -> BucketModel {
        BucketModel { size: self.size, members: self.members.deep_view() }
    }
}

impl DeepView for SizeBucket {
    type V = BucketModel;

    open spec fn deep_view(&self) -> BucketModel {
        self.view()
    }
}

/// One group of byte-identical files: the canonical representative (lowest
/// discovery index) first, the remaining duplicates in ascending discovery
/// order. A group always holds at least two files in total.
#[derive(Debug)]
pub struct DuplicateGroup {
    pub canonical: FileRecord,
    pub duplicates: Vec<FileRecord>,
}

/// Mathematical image of a `DuplicateGroup`.
#[verifier::ext_equal]
pub struct GroupModel {
    pub canonical: RecordModel,
    pub duplicates: Seq<RecordModel>,
}

impl View for DuplicateGroup {
    type V = GroupModel;

    open spec fn view(&self) -> GroupModel {
        GroupModel {
            canonical: self.canonical@,
            duplicates: self.duplicates.deep_view(),
        }
    }
}

impl DeepView for DuplicateGroup {
    type V = GroupModel;

    open spec fn deep_view(&self) -> GroupModel {
        self.view()
    }
}

/// What one hashing worker reports back for one file, keyed by the file's
/// discovery index: either the computed digest or the text of the read
/// error that prevented hashing.
#[derive(Debug)]
pub struct HashOutcome {
    pub discovery_index: u64,
    pub digest: Result<Vec<u8>, String>,
}

/// Mathematical image of a `HashOutcome`.
#[verifier::ext_equal]
pub struct OutcomeModel {
    pub discovery_index: u64,
    pub digest: Result<Seq<u8>, Seq<char>>,
}

impl View for HashOutcome {
    type V = OutcomeModel;

    open spec fn view(&self) -> OutcomeModel {
        OutcomeModel {
            discovery_index: self.discovery_index,
            digest: match self.digest {
                Ok(ref d) => Ok(d@),
                Err(ref e) => Err(e@),
            },
        }
    }
}

impl DeepView for HashOutcome {
    type V = OutcomeModel;

    open spec fn deep_view(&self) -> OutcomeModel {
        self.view()
    }
}

/// One isolated per-file failure: the path concerned and the error text.
#[derive(Debug)]
pub struct Failure {
    pub path: String,
    pub message: String,
}

/// Mathematical image of a `Failure`.
#[verifier::ext_equal]
pub struct FailureModel {
    pub path: Seq<char>,
    pub message: Seq<char>,
}

impl View for Failure {
    type V = FailureModel;

    open spec fn view(&self) -> FailureModel {
        FailureModel { path: self.path@, message: self.message@ }
    }
}

impl DeepView for Failure {
    type V = FailureModel;

    open spec fn deep_view(&self) -> FailureModel {
        self.view()
    }
}

/// The records of `rs` carry strictly increasing discovery indices.
pub open spec fn ascending_indices(rs: Seq<RecordModel>) -> bool {
    forall|i: int, j: int|
        0 <= i < j < rs.len() ==> #[trigger] rs[i].discovery_index
            < #[trigger] rs[j].discovery_index
}

/// Every member of bucket `b` has exactly the bucket's byte size.
pub open spec fn bucket_sized(b: BucketModel) -> bool {
    forall|i: int| 0 <= i < b.members.len() ==> (#[trigger] b.members[i]).size == b.size
}

/// Every record of `rs` carries a digest.
pub open spec fn all_digested(rs: Seq<RecordModel>) -> bool {
    forall|i: int| 0 <= i < rs.len() ==> (#[trigger] rs[i]).digest is Some
}

/// Compares two byte vectors for content equality.
pub fn eq_bytes(a: &Vec<u8>, b: &Vec<u8>) -> (r: bool)
    ensures
        r == (a@ == b@),
{
    if a.len() != b.len() {
        return false;
    }
    let mut i: usize = 0;
    while i < a.len()
        invariant
            i <= a@.len(),
            a@.len() == b@.len(),
            forall|t: int| 0 <= t < i ==> a@[t] == b@[t],
        decreases a@.len() - i,
    {
        if a[i] != b[i] {
            return false;
        }
        i += 1;
    }
    proof {
        assert(a@ =~= b@);
    }
    true
}

/// Copies a byte vector.
pub fn clone_bytes(v: &Vec<u8>) -> (c: Vec<u8>)
    ensures
        c@ == v@,
{
    let mut c: Vec<u8> = Vec::new();
    let mut i: usize = 0;
    while i < v.len()
        invariant
            i <= v@.len(),
            c@ == v@.take(i as int),
        decreases v@.len() - i,
    {
        c.push(v[i]);
        proof {
            assert(v@.take(i + 1 as int) =~= v@.take(i as int).push(v@[i as int]));
        }
        i += 1;
    }
    proof {
        assert(v@.take(v@.len() as int) =~= v@);
    }
    c
}

/// Copies one file record; the copy has the same mathematical image.
pub fn clone_record(r: &FileRecord) -> (c: FileRecord)
    ensures
        c@ == r@,
{
    let digest: Option<Vec<u8>> = match &r.digest {
        Some(d) => Some(clone_bytes(d)),
        None => None,
    };
    let c = FileRecord {
        path: r.path.clone(),
        size: r.size,
        discovery_index: r.discovery_index,
        digest,
    };
    proof {
        assert(c@ =~= r@);
    }
    c
}

} // verus!
