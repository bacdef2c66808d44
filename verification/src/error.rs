use vstd::prelude::*;

verus! {

/// The failure taxonomy of the library and of the tool built around it.
///
/// Only input validation errors are produced by the verified core itself;
/// the remaining variants classify failures that the caller meets at the
/// edges (the state file, the package manager) and hands back through the
/// same type so that every path reports one taxonomy.
#[derive(Debug, Clone, PartialEq, Eq)]
pub enum MoreeError {
    /// The caller asked to classify packages that are not installed;
    /// the payload lists every such package.
    NotInstalled { missing: Vec<String> },
    /// Mutually exclusive query flags were both given.
    ConflictingFlags,
    /// No platform data directory is available and no override path was given.
    NoDataDirectory,
    /// The persisted state file exists but does not parse as the expected
    /// shape.  It must be surfaced, never replaced by an empty state.
    StateCorruption,
    /// The package manager reported failure for a query or a mutation batch.
    AdapterFailure,
    /// The user declined to go on at a confirmation prompt.
    Cancelled,
}

impl MoreeError {
    /// A short, stable description for display; the caller decorates it.
    pub fn describe(&self) -> (r: &'static str)
        ensures
            r@ == self.describe_spec(),
    {
        match self {
            MoreeError::NotInstalled { .. } => "some packages are not installed",
            MoreeError::ConflictingFlags => {
                "'--deps' and '--explicit' may not be used together"
            },
            MoreeError::NoDataDirectory => "could not determine data directory",
            MoreeError::StateCorruption => "could not parse state file",
            MoreeError::AdapterFailure => "package manager command failed",
            MoreeError::Cancelled => "operation cancelled",
        }
    }

    pub open spec fn describe_spec(self) -> Seq<char> {
        match self {
            MoreeError::NotInstalled { .. } => "some packages are not installed"@,
            MoreeError::ConflictingFlags => {
                "'--deps' and '--explicit' may not be used together"@
            },
            MoreeError::NoDataDirectory => "could not determine data directory"@,
            MoreeError::StateCorruption => "could not parse state file"@,
            MoreeError::AdapterFailure => "package manager command failed"@,
            MoreeError::Cancelled => "operation cancelled"@,
        }
    }
}

} // verus!
