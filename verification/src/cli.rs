//! The command-line surface: which operation was chosen and whether it
//! recurses. Argument reading and interactive prompting happen in the
//! surrounding process, which hands the parsed choice over as plain
//! values.

use vstd::prelude::*;

verus! {

/// The operations the tool offers. The duplicate-detection engine backs
/// `Deduplicate`; the remaining operations are simple I/O collaborators
/// around it, handled entirely by the surrounding process.
#[derive(Clone, Copy, Debug, PartialEq, Eq, Structural)]
pub enum Commands {
    /// Categorize files based on type and date.
    Categorize { recursive: bool },
    /// Flatten directory structure.
    DirectoryFlatten { recursive: bool },
    /// Optimize images.
    ImageOptimize { recursive: bool },
    /// Find and handle duplicate files.
    Deduplicate { recursive: bool },
    /// Manage archives (create, extract, update, split).
    Archive { recursive: bool },
}

/// One parsed invocation: a chosen command, or none, which asks the
/// surrounding process to select one interactively.
#[derive(Clone, Copy, Debug)]
pub struct Cli {
    pub command: Option<Commands>,
}

impl Cli {
    /// Wraps the choice the surrounding process parsed or prompted for.
    pub fn new(command: Option<Commands>) -> (c: Self)
        ensures
            c.command == command,
    {
        Cli { command }
    }
}

} // verus!
