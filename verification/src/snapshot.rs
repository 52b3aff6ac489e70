//! A directory tree as plain data: what the file system reported about a root
//! and everything below it at one moment.

use crate::note::NoteFrontMatter;
use vstd::prelude::*;

verus! {

/// Why the file system refused an operation.
#[derive(Clone, Copy, Debug, PartialEq, Eq, Structural)]
pub enum IoFailure {
    NotFound,
    PermissionDenied,
    NotADirectory,
    Unsupported,
    InvalidData,
    Other,
}

/// An instant, counted from the Unix epoch in UTC.
#[derive(Clone, Copy, Debug, PartialEq, Eq, Structural)]
pub struct Timestamp {
    pub seconds: i64,
    pub nanos: u32,
}

/// The two timestamps the file system keeps for a file. Either may be
/// unavailable on its own.
#[derive(Debug, PartialEq, Eq)]
pub struct FileStat {
    pub modified: Result<Timestamp, IoFailure>,
    pub created: Result<Timestamp, IoFailure>,
}

/// What could be learned about one regular file.
#[derive(Debug, PartialEq, Eq)]
pub struct FileData {
    /// The outcome of asking for the file's metadata.
    pub stat: Result<FileStat, IoFailure>,
    /// The outcome of reading the whole file as text.
    pub content: Result<String, IoFailure>,
    /// The preamble found at the start of the content, if one was found and
    /// could be decoded.
    pub front_matter: Option<NoteFrontMatter>,
}

/// One entry of a directory tree.
#[derive(Debug, PartialEq, Eq)]
pub enum FsNode {
    /// A regular file.
    File { name: String, data: FileData },
    /// A directory and the entries its listing produced, in listing order.
    Dir { name: String, entries: Vec<FsNode> },
    /// A directory whose listing failed.
    DeniedDir { name: String, failure: IoFailure },
    /// Neither a regular file nor a directory; listing it fails.
    Other { name: String, failure: IoFailure },
}

/// Whether no two of the entries carry the same name.
pub open spec fn distinct_names(entries: Seq<FsNode>) -> bool {
    forall|i: int, j: int|
        0 <= i < j < entries.len() ==> (#[trigger] entries[i]).name_text() != (
        #[trigger] entries[j]).name_text()
}

impl FsNode {
    /// The entry's own name, as characters.
    pub open spec fn name_text(self) -> Seq<char> {
        match self {
            FsNode::File { name, .. } => name@,
            FsNode::Dir { name, .. } => name@,
            FsNode::DeniedDir { name, .. } => name@,
            FsNode::Other { name, .. } => name@,
        }
    }

    /// Whether the entry is a directory, readable or not.
    pub open spec fn is_directory(self) -> bool {
        self is Dir || self is DeniedDir
    }

    /// Whether the snapshot is one a file system can give: within each
    /// directory no two entries carry the same name.
    pub open spec fn well_formed(self) -> bool
        decreases self,
    {
        match self {
            FsNode::Dir { entries, .. } => distinct_names(entries@) && forall|i: int|
                0 <= i < entries@.len() ==> (#[trigger] entries@[i]).well_formed(),
            _ => true,
        }
    }

    /// The entry's own name.
    pub fn name(&self) -> (res: &String)
        ensures
            res@ == self.name_text(),
    {
        match self {
            FsNode::File { name, .. } => name,
            FsNode::Dir { name, .. } => name,
            FsNode::DeniedDir { name, .. } => name,
            FsNode::Other { name, .. } => name,
        }
    }

    /// Whether the entry is a directory, readable or not.
    pub fn is_dir(&self) -> (res: bool)
        ensures
            res == self.is_directory(),
    {
        match self {
            FsNode::Dir { .. } => true,
            FsNode::DeniedDir { .. } => true,
            _ => false,
        }
    }

    /// Whether the entry is a regular file.
    pub fn is_file(&self) -> (res: bool)
        ensures
            res == (self is File),
    {
        match self {
            FsNode::File { .. } => true,
            _ => false,
        }
    }
}

} // verus!
