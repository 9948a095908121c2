use vstd::prelude::*;

verus! {

/// The failure taxonomy of a search run.
///
/// Only `InvalidArguments` and `DirectoryUnreadable` end the run;
/// `FileUnreadable` is reported and the run continues with the next file.
#[derive(Clone, Copy, Debug, PartialEq, Eq, Structural)]
pub enum SearchError {
    /// Fewer than three process arguments, or an empty root path or term.
    InvalidArguments,
    /// The root directory (or a directory below it) could not be listed.
    DirectoryUnreadable,
    /// A discovered file could not be opened for reading.
    FileUnreadable,
}

impl SearchError {
    /// Whether this failure ends the whole run rather than a single file's scan.
    pub fn is_fatal(&self) -> (r: bool)
        ensures
            r == (*self == SearchError::InvalidArguments || *self
                == SearchError::DirectoryUnreadable),
    {
        match self {
            SearchError::FileUnreadable => false,
            _ => true,
        }
    }

    /// The process exit status this failure calls for: 1 for the fatal
    /// failures, 0 for a per-file failure, which never changes the status.
    pub fn exit_code(&self) -> (r: i32)
        ensures
            r == 1 <==> (*self == SearchError::InvalidArguments || *self
                == SearchError::DirectoryUnreadable),
            r == 0 <==> *self == SearchError::FileUnreadable,
    {
        match self {
            SearchError::FileUnreadable => 0,
            _ => 1,
        }
    }
}

} // verus!
