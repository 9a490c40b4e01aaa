//! Unit tests: fingerprints against known digests, configuration
//! validation, disposition planning, failure collection, and the
//! engine's state surface.

use file_organizer::cli::{Cli, Commands};
use file_organizer::config::{validate_config, ConfigError, DedupConfig, DuplicateAction};
use file_organizer::dedup::FileDeduplicator;
use file_organizer::disposition::{collect_step_failures, plan_dispositions, StepOp};
use file_organizer::hasher::{bytes_needed, compute_fingerprint, HashStrategy};
use file_organizer::outcome::build_outcome;
use file_organizer::record::{DuplicateGroup, Failure, FileRecord};

fn hex(s: &str) -> Vec<u8> {
    let bytes = s.as_bytes();
    let mut out = Vec::new();
    let mut i = 0;
    while i < bytes.len() {
        let hi = (bytes[i] as char).to_digit(16).unwrap() as u8;
        let lo = (bytes[i + 1] as char).to_digit(16).unwrap() as u8;
        out.push(hi * 16 + lo);
        i += 2;
    }
    out
}

fn record(path: &str, size: u64, idx: u64) -> FileRecord {
    FileRecord {
        path: path.to_string(),
        size,
        discovery_index: idx,
        digest: Some(vec![1, 2, 3]),
    }
}

fn sample_group() -> DuplicateGroup {
    DuplicateGroup {
        canonical: record("keep/a", 3, 0),
        duplicates: vec![record("dup/b", 3, 1), record("dup/c", 3, 2)],
    }
}

#[test]
fn full_fingerprint_known_answer() {
    let d = compute_fingerprint(HashStrategy::Full, 1, b"X");
    assert_eq!(d.len(), 32);
    assert_eq!(
        d,
        hex("4b68ab3847feda7d6c62c1fbcbeebfa35eab7351ed5e78f4ddadea5df64b8015")
    );
}

#[test]
fn full_fingerprint_empty_content() {
    let d = compute_fingerprint(HashStrategy::Full, 0, b"");
    assert_eq!(
        d,
        hex("e3b0c44298fc1c149afbf4c8996fb92427ae41e4649b934ca495991b7852b855")
    );
}

#[test]
fn quick_fingerprint_hashes_size_then_prefix() {
    // The quick fingerprint of a one-byte file "X" digests the decimal
    // size "1" followed by the prefix: SHA-256 of "1X".
    let d = compute_fingerprint(HashStrategy::Quick, 1, b"X");
    assert_eq!(
        d,
        hex("7cf631049bd2adec227af0bb0aa067c4531c6a278f4dc94cddffaae66c794c02")
    );
}

#[test]
fn quick_fingerprint_empty_content() {
    // SHA-256 of the decimal size "0" alone.
    let d = compute_fingerprint(HashStrategy::Quick, 0, b"");
    assert_eq!(
        d,
        hex("5feceb66ffc86f38d952786c6d696c79c2dbc239dd4e91b46729d73a27fb57e9")
    );
}

#[test]
fn bytes_needed_small_files() {
    assert_eq!(bytes_needed(HashStrategy::Quick, 5), 5);
    assert_eq!(bytes_needed(HashStrategy::Full, 5), 5);
    assert_eq!(bytes_needed(HashStrategy::Quick, 0), 0);
}

#[test]
fn config_move_requires_quarantine() {
    let bad = DedupConfig {
        strategy: HashStrategy::Full,
        action: DuplicateAction::Move,
        quarantine_dir: None,
    };
    assert!(matches!(
        validate_config(&bad),
        Err(ConfigError::MissingQuarantineDir)
    ));
    let good = DedupConfig {
        strategy: HashStrategy::Full,
        action: DuplicateAction::Move,
        quarantine_dir: Some("duplicates".to_string()),
    };
    assert!(validate_config(&good).is_ok());
}

#[test]
fn config_report_and_delete_need_no_quarantine() {
    for action in [DuplicateAction::Report, DuplicateAction::Delete] {
        let c = DedupConfig {
            strategy: HashStrategy::Quick,
            action,
            quarantine_dir: None,
        };
        assert!(validate_config(&c).is_ok());
    }
}

#[test]
fn report_plan_emits_only() {
    let groups = vec![sample_group()];
    let steps = plan_dispositions(DuplicateAction::Report, &None, &groups);
    assert_eq!(steps.len(), 2);
    for step in &steps {
        assert!(matches!(step.op, StepOp::Emit));
        assert_eq!(step.canonical_path, "keep/a");
        assert_eq!(step.size, 3);
    }
    assert_eq!(steps[0].duplicate_path, "dup/b");
    assert_eq!(steps[1].duplicate_path, "dup/c");
}

#[test]
fn move_plan_targets_quarantine() {
    let groups = vec![sample_group()];
    let q = Some("quarantine".to_string());
    let steps = plan_dispositions(DuplicateAction::Move, &q, &groups);
    assert_eq!(steps.len(), 2);
    for step in &steps {
        match &step.op {
            StepOp::Relocate(dir) => assert_eq!(dir, "quarantine"),
            _ => panic!("expected a relocation step"),
        }
    }
}

#[test]
fn delete_plan_removes() {
    let groups = vec![sample_group()];
    let steps = plan_dispositions(DuplicateAction::Delete, &None, &groups);
    assert_eq!(steps.len(), 2);
    for step in &steps {
        assert!(matches!(step.op, StepOp::Remove));
    }
}

#[test]
fn step_failures_are_collected_in_order() {
    let groups = vec![sample_group()];
    let steps = plan_dispositions(DuplicateAction::Delete, &None, &groups);
    let results = vec![None, Some("device busy".to_string())];
    let failures = collect_step_failures(&steps, &results);
    assert_eq!(failures.len(), 1);
    assert_eq!(failures[0].path, "dup/c");
    assert_eq!(failures[0].message, "device busy");
}

#[test]
fn outcome_orders_hash_failures_first() {
    let groups = vec![sample_group()];
    let hash_failures = vec![Failure {
        path: "h".to_string(),
        message: "read error".to_string(),
    }];
    let step_failures = vec![Failure {
        path: "s".to_string(),
        message: "rename error".to_string(),
    }];
    let outcome = build_outcome(&groups, hash_failures, step_failures);
    assert_eq!(outcome.groups_found, 1);
    assert_eq!(outcome.duplicates_processed, 2);
    assert_eq!(outcome.bytes_reclaimable, 6);
    assert_eq!(outcome.failures.len(), 2);
    assert_eq!(outcome.failures[0].path, "h");
    assert_eq!(outcome.failures[1].path, "s");
}

#[test]
fn cli_wraps_parsed_command() {
    let c = Cli::new(Some(Commands::Deduplicate { recursive: true }));
    assert!(matches!(
        c.command,
        Some(Commands::Deduplicate { recursive: true })
    ));
    let interactive = Cli::new(None);
    assert!(interactive.command.is_none());
}

#[test]
fn deduplicator_holds_its_settings() {
    let mut d = FileDeduplicator::new(true);
    assert!(d.is_recursive());
    assert!(d.get_input_dir().is_none());
    d.set_input_dir("photos".to_string());
    assert_eq!(d.get_input_dir().unwrap(), "photos");
    d.configure(DedupConfig {
        strategy: HashStrategy::Quick,
        action: DuplicateAction::Move,
        quarantine_dir: Some("duplicates".to_string()),
    });
    assert!(matches!(d.duplicate_action, Some(DuplicateAction::Move)));
    assert!(matches!(d.hash_strategy, Some(HashStrategy::Quick)));
    assert_eq!(d.quarantine_dir.as_deref(), Some("duplicates"));
    assert!(d.is_recursive());

    let shallow = FileDeduplicator::new(false);
    assert!(!shallow.is_recursive());
}
