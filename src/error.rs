use vstd::prelude::*;

verus! {

/// What can go wrong while archiving a tree of directories.
#[derive(Debug, Clone)]
pub enum ZipError {
    /// No absolute path could be determined (missing or relative home or
    /// working directory).
    PathResolution,
    /// The archive writer could not append an entry; holds the entry's name.
    ArchiveWrite(String),
    /// The reader tasks delivered another number of payloads than there were
    /// files.
    Channel { expected: usize, received: usize },
    /// Some files could not be read; holds their paths.
    Read(Vec<String>),
    /// The strategy name given is not one of the known ones.
    UnsupportedZipType(String),
}

} // verus!
