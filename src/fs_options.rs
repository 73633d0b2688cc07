//! The options that scripts pass to the filesystem operations, and what a
//! directory listing reports of each entry.
use vstd::prelude::*;

verus! {

/// How to read a file.
#[derive(Clone, Copy, Debug, Default, PartialEq, Eq, Structural)]
pub struct ReadOptions {
    /// As bytes, rather than as text.
    pub binary: bool,
}

/// How to write a file.
#[derive(Clone, Copy, Debug, Default, PartialEq, Eq, Structural)]
pub struct WriteOptions {
    /// From bytes, rather than from text.
    pub binary: bool,
    /// Create the missing parent directories first.
    pub create_dirs: bool,
}

/// How to remove a path.
#[derive(Clone, Copy, Debug, Default, PartialEq, Eq, Structural)]
pub struct RemoveOptions {
    /// Remove a directory with everything in it.
    pub recursive: bool,
}

/// How to create a directory.
#[derive(Clone, Copy, Debug, Default, PartialEq, Eq, Structural)]
pub struct MkdirOptions {
    /// Create the missing parents too.
    pub recursive: bool,
}

/// How to list a directory.
#[derive(Clone, Debug, Default)]
pub struct ReaddirOptions {
    /// List entries whose name starts with `.`.
    pub include_hidden: bool,
    /// Keep only `file`, `directory` or `symlink` entries.
    pub filter_type: Option<String>,
    /// Order by `name`, `size`, `modified` or `type`.
    pub sort_by: Option<String>,
}

/// One entry of a directory listing.
#[derive(Clone, Debug)]
pub struct DirEntryInfo {
    pub name: String,
    pub path: String,
    pub is_file: bool,
    pub is_directory: bool,
    pub is_symlink: bool,
    pub size: u64,
    /// Seconds since the Unix epoch, where known.
    pub modified: Option<u64>,
    /// Seconds since the Unix epoch, where known.
    pub created: Option<u64>,
}

/// How to copy a path.
#[derive(Clone, Copy, Debug, Default, PartialEq, Eq, Structural)]
pub struct CopyOptions {
    /// Copy a directory with everything in it.
    pub recursive: bool,
    /// Create the missing parent directories of the destination first.
    pub create_dirs: bool,
    /// Replace files that already exist at the destination.
    pub overwrite: bool,
}

} // verus!
