use vstd::prelude::*;

verus! {

/// What stops a document from being read.
#[derive(Debug, Clone, PartialEq, Eq, Structural)]
pub enum SyncError {
    /// A line after the libraries header is neither blank, a comment, a
    /// header `[libraries]` nor a `key=value` setting.
    MalformedLine { line: usize },
    /// The operating system has no library naming scheme.
    UnsupportedTarget,
}

} // verus!
