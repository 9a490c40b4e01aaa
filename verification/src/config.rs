//! Run configuration: the chosen hash strategy, the disposition action,
//! and the quarantine directory that a relocating run requires.

use vstd::prelude::*;
use crate::hasher::HashStrategy;

verus! {

/// What to do with every duplicate (never with the canonical file).
#[derive(Clone, Copy, Debug, PartialEq, Eq, Structural)]
pub enum DuplicateAction {
    /// Emit a structured record per duplicate; touch nothing.
    Report,
    /// Relocate each duplicate into the quarantine directory.
    Move,
    /// Permanently remove each duplicate; gated by an explicit outside
    /// confirmation before the run is invoked.
    Delete,
}

/// The recognized options of a run.
#[derive(Debug)]
pub struct DedupConfig {
    /// How file content is fingerprinted.
    pub strategy: HashStrategy,
    /// What happens to duplicates.
    pub action: DuplicateAction,
    /// Where relocated duplicates go; required exactly when the action
    /// relocates.
    pub quarantine_dir: Option<String>,
}

/// An invalid combination of options, surfaced before any scanning.
#[derive(Clone, Copy, Debug, PartialEq, Eq, Structural)]
pub enum ConfigError {
    /// The action relocates but no quarantine directory was given.
    MissingQuarantineDir,
}

/// Checks a configuration: it is rejected exactly when the action is
/// `Move` and no quarantine directory is given.
pub fn validate_config(config: &DedupConfig) -> (r: Result<(), ConfigError>)
    ensures
        r is Ok <==> !(config.action is Move && config.quarantine_dir is None),
        r is Err ==> r->Err_0 == ConfigError::MissingQuarantineDir,
{
    match config.action {
        DuplicateAction::Move => {
            match &config.quarantine_dir {
                Some(_) => Ok(()),
                None => Err(ConfigError::MissingQuarantineDir),
            }
        },
        _ => Ok(()),
    }
}

} // verus!
