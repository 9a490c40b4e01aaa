//! End-to-end scenarios for the detection pipeline, run on in-memory
//! listings and contents.

use file_organizer::dedup::detect_duplicates;
use file_organizer::hasher::{bytes_needed, compute_fingerprint, HashStrategy, QUICK_PREFIX_LEN};
use file_organizer::outcome::build_outcome;
use file_organizer::record::{DuplicateGroup, Failure, HashOutcome, ScanEntry};
use file_organizer::scanner::index_entries;
use file_organizer::size_grouper::group_by_size;

fn run_pipeline(
    strategy: HashStrategy,
    files: &[(&str, Vec<u8>)],
) -> (Vec<DuplicateGroup>, Vec<Failure>) {
    let entries: Vec<ScanEntry> = files
        .iter()
        .map(|(p, c)| ScanEntry { path: (*p).to_string(), size: c.len() as u64 })
        .collect();
    let records = index_entries(&entries);
    let mut outcomes: Vec<HashOutcome> = Vec::new();
    for (i, (_p, c)) in files.iter().enumerate() {
        let size = c.len() as u64;
        let need = bytes_needed(strategy, size) as usize;
        outcomes.push(HashOutcome {
            discovery_index: i as u64,
            digest: Ok(compute_fingerprint(strategy, size, &c[..need])),
        });
    }
    detect_duplicates(&records, &outcomes)
}

#[test]
fn scenario_two_identical_one_distinct() {
    let files = [
        ("a.txt", b"X".to_vec()),
        ("b.txt", b"X".to_vec()),
        ("c.txt", b"Y".to_vec()),
    ];
    let (groups, failures) = run_pipeline(HashStrategy::Full, &files);
    assert!(failures.is_empty());
    assert_eq!(groups.len(), 1);
    assert_eq!(groups[0].canonical.path, "a.txt");
    assert_eq!(groups[0].duplicates.len(), 1);
    assert_eq!(groups[0].duplicates[0].path, "b.txt");
    assert_eq!(groups[0].canonical.discovery_index, 0);
    assert_eq!(groups[0].duplicates[0].discovery_index, 1);
    assert_eq!(groups[0].canonical.digest, groups[0].duplicates[0].digest);
    assert_eq!(groups[0].canonical.size, 1);
    assert_eq!(groups[0].duplicates[0].size, 1);
}

#[test]
fn scenario_equal_size_distinct_content() {
    let files = [
        ("a", b"AA".to_vec()),
        ("b", b"BB".to_vec()),
        ("c", b"CC".to_vec()),
    ];
    let entries: Vec<ScanEntry> = files
        .iter()
        .map(|(p, c)| ScanEntry { path: (*p).to_string(), size: c.len() as u64 })
        .collect();
    let records = index_entries(&entries);
    let buckets = group_by_size(&records);
    assert_eq!(buckets.len(), 1);
    assert_eq!(buckets[0].size, 2);
    assert_eq!(buckets[0].members.len(), 3);

    let d1 = compute_fingerprint(HashStrategy::Full, 2, b"AA");
    let d2 = compute_fingerprint(HashStrategy::Full, 2, b"BB");
    let d3 = compute_fingerprint(HashStrategy::Full, 2, b"CC");
    assert_ne!(d1, d2);
    assert_ne!(d1, d3);
    assert_ne!(d2, d3);

    let (groups, failures) = run_pipeline(HashStrategy::Full, &files);
    assert!(groups.is_empty());
    assert!(failures.is_empty());
}

#[test]
fn scenario_empty_directory() {
    let files: [(&str, Vec<u8>); 0] = [];
    let (groups, failures) = run_pipeline(HashStrategy::Full, &files);
    assert!(groups.is_empty());
    assert!(failures.is_empty());
    let outcome = build_outcome(&groups, failures, Vec::new());
    assert_eq!(outcome.groups_found, 0);
    assert_eq!(outcome.duplicates_processed, 0);
    assert_eq!(outcome.bytes_reclaimable, 0);
    assert!(outcome.failures.is_empty());
}

#[test]
fn scenario_unreadable_file() {
    let files = [
        ("a.txt", b"Z".to_vec()),
        ("b.txt", b"Z".to_vec()),
        ("c.txt", b"Z".to_vec()),
    ];
    let entries: Vec<ScanEntry> = files
        .iter()
        .map(|(p, c)| ScanEntry { path: (*p).to_string(), size: c.len() as u64 })
        .collect();
    let records = index_entries(&entries);
    let mut outcomes: Vec<HashOutcome> = Vec::new();
    for (i, (_p, c)) in files.iter().enumerate() {
        let digest = if i == 1 {
            Err("permission denied".to_string())
        } else {
            Ok(compute_fingerprint(HashStrategy::Full, c.len() as u64, c))
        };
        outcomes.push(HashOutcome { discovery_index: i as u64, digest });
    }
    let (groups, failures) = detect_duplicates(&records, &outcomes);
    assert_eq!(failures.len(), 1);
    assert_eq!(failures[0].path, "b.txt");
    assert_eq!(failures[0].message, "permission denied");
    assert_eq!(groups.len(), 1);
    assert_eq!(groups[0].canonical.path, "a.txt");
    assert_eq!(groups[0].duplicates.len(), 1);
    assert_eq!(groups[0].duplicates[0].path, "c.txt");
}

#[test]
fn deterministic_rerun_same_canonicals() {
    let files = [
        ("x", b"Q".to_vec()),
        ("y", b"Q".to_vec()),
        ("z", b"R".to_vec()),
        ("w", b"Q".to_vec()),
    ];
    let (g1, f1) = run_pipeline(HashStrategy::Full, &files);
    let (g2, f2) = run_pipeline(HashStrategy::Full, &files);
    assert!(f1.is_empty());
    assert!(f2.is_empty());
    assert_eq!(g1.len(), g2.len());
    for (a, b) in g1.iter().zip(g2.iter()) {
        assert_eq!(a.canonical.path, b.canonical.path);
        assert_eq!(a.duplicates.len(), b.duplicates.len());
        for (da, db) in a.duplicates.iter().zip(b.duplicates.iter()) {
            assert_eq!(da.path, db.path);
        }
    }
    assert_eq!(g1.len(), 1);
    assert_eq!(g1[0].canonical.path, "x");
    assert_eq!(g1[0].duplicates[0].path, "y");
    assert_eq!(g1[0].duplicates[1].path, "w");
}

#[test]
fn quick_hash_cheaper_but_weaker() {
    let n = QUICK_PREFIX_LEN as usize;
    let mut c1 = vec![7u8; n + 1];
    let mut c2 = vec![7u8; n + 1];
    c1[n] = 1;
    c2[n] = 2;
    let size = (n + 1) as u64;

    assert_eq!(bytes_needed(HashStrategy::Quick, size), QUICK_PREFIX_LEN);
    assert_eq!(bytes_needed(HashStrategy::Full, size), size);
    assert!(bytes_needed(HashStrategy::Quick, size) < bytes_needed(HashStrategy::Full, size));

    let files = [("one", c1), ("two", c2)];
    let (quick_groups, _) = run_pipeline(HashStrategy::Quick, &files);
    assert_eq!(quick_groups.len(), 1);
    assert_eq!(quick_groups[0].canonical.path, "one");
    assert_eq!(quick_groups[0].duplicates[0].path, "two");

    let (full_groups, _) = run_pipeline(HashStrategy::Full, &files);
    assert!(full_groups.is_empty());
}

#[test]
fn reclaimable_bytes_sum_duplicate_sizes() {
    let files = [
        ("a", b"AB".to_vec()),
        ("b", b"AB".to_vec()),
        ("c", b"AB".to_vec()),
        ("d", b"XY".to_vec()),
    ];
    let (groups, failures) = run_pipeline(HashStrategy::Full, &files);
    assert_eq!(groups.len(), 1);
    assert_eq!(groups[0].duplicates.len(), 2);
    let outcome = build_outcome(&groups, failures, Vec::new());
    assert_eq!(outcome.groups_found, 1);
    assert_eq!(outcome.duplicates_processed, 2);
    assert_eq!(outcome.bytes_reclaimable, 4);
    assert!(outcome.failures.is_empty());
}

#[test]
fn zero_byte_files_are_candidates() {
    let files = [("a", Vec::new()), ("b", Vec::new())];
    let (groups, failures) = run_pipeline(HashStrategy::Full, &files);
    assert!(failures.is_empty());
    assert_eq!(groups.len(), 1);
    assert_eq!(groups[0].canonical.path, "a");
    assert_eq!(groups[0].duplicates[0].path, "b");
    assert_eq!(groups[0].canonical.size, 0);
}

#[test]
fn singleton_sizes_are_pruned_before_hashing() {
    let files = [
        ("a", b"1".to_vec()),
        ("b", b"22".to_vec()),
        ("c", b"333".to_vec()),
    ];
    let entries: Vec<ScanEntry> = files
        .iter()
        .map(|(p, c)| ScanEntry { path: (*p).to_string(), size: c.len() as u64 })
        .collect();
    let records = index_entries(&entries);
    let buckets = group_by_size(&records);
    assert!(buckets.is_empty());
}
