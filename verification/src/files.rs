//! What is known of files.

use vstd::prelude::*;

verus! {

/// What is known of a file or a directory.
#[derive(Debug, Clone, Copy, PartialEq, Eq, Structural)]
pub struct FileFacts {
    /// Whether it is a directory.
    pub is_directory: bool,
    /// Whether it is a regular file.
    pub is_file: bool,
    /// Whether it belongs to the user.
    pub is_owned: bool,
    /// Its permissions.
    pub mode: u32,
}

/// Tells whether a file can be run.
pub fn is_executable(facts: FileFacts) -> (r: bool)
    ensures
        r == (facts.is_file && facts.mode & 0o111 != 0),
{
    facts.is_file && facts.mode & 0o111 != 0
}

} // verus!
