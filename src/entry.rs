use vstd::prelude::*;

verus! {

/// An instant, as seconds and nanoseconds since the Unix epoch (UTC).
#[derive(Clone, Copy, Debug, PartialEq, Eq, Structural)]
pub struct Timestamp {
    pub secs: i64,
    pub nanos: u32,
}

/// The attributes that the extended listing shows for a file.
#[derive(Clone, Copy, Debug, PartialEq, Eq, Structural)]
pub struct EntryMetadata {
    pub created_at: Timestamp,
    pub modified_at: Timestamp,
    pub read_only: bool,
}

/// What a directory entry is, as far as it could be told.
#[derive(Clone, Copy, Debug, PartialEq, Eq, Structural)]
pub enum EntryKind {
    File,
    Directory,
    /// The entry could not report its type.
    Unknown,
}

/// One child of the listed directory.
///
/// `path` is `None` when the path is not valid Unicode; `metadata` holds the
/// error kind when the attributes could not be read.
#[derive(Debug)]
pub struct Entry {
    pub path: Option<String>,
    pub kind: EntryKind,
    pub metadata: Result<EntryMetadata, std::io::ErrorKind>,
}

} // verus!
