//! File status kinds, the per-file change record that a status snapshot is
//! made of, and the classification of raw status flags into a single kind.

use vstd::prelude::*;

verus! {

/// Status kind of one pending change.
#[derive(Debug, Clone, Copy, PartialEq, Eq, Structural)]
pub enum FileStatus {
    Modified,
    Added,
    Deleted,
    Renamed,
    Untracked,
    Conflicted,
}

/// The one-character marker for each status kind.
pub open spec fn symbol_spec(s: FileStatus) -> Seq<char> {
    match s {
        FileStatus::Modified => "M"@,
        FileStatus::Added => "A"@,
        FileStatus::Deleted => "D"@,
        FileStatus::Renamed => "R"@,
        FileStatus::Untracked => "U"@,
        FileStatus::Conflicted => "!"@,
    }
}

impl FileStatus {
    /// One-character marker shown beside a file of this status.
    pub fn symbol(&self) -> (r: &'static str)
        ensures
            r@ == symbol_spec(*self),
    {
        match self {
            FileStatus::Modified => "M",
            FileStatus::Added => "A",
            FileStatus::Deleted => "D",
            FileStatus::Renamed => "R",
            FileStatus::Untracked => "U",
            FileStatus::Conflicted => "!",
        }
    }
}

/// One changed file in a status snapshot: its repository-relative path,
/// status kind, whether the change is staged, its line counts, and the
/// file's last modification instant in milliseconds, when known.
#[derive(Debug)]
pub struct FileChange {
    pub path: String,
    pub status: FileStatus,
    pub staged: bool,
    pub additions: i32,
    pub deletions: i32,
    pub modified_time: Option<u64>,
}

/// The raw per-file status flags that the backend reports, as plain
/// booleans: conflict state, staged (index) changes and working-tree
/// changes.
#[derive(Debug, Clone, Copy, PartialEq, Eq, Structural)]
pub struct StatusFlags {
    pub conflicted: bool,
    pub index_new: bool,
    pub index_modified: bool,
    pub index_deleted: bool,
    pub index_renamed: bool,
    pub wt_new: bool,
    pub wt_modified: bool,
    pub wt_deleted: bool,
    pub wt_renamed: bool,
}

/// How raw status flags classify into a status kind and a staged bit:
/// conflicts win, then staged (index) changes, then working-tree changes;
/// flags that signal none of these yield no kind.
pub open spec fn parse_status_spec(f: StatusFlags) -> (Option<FileStatus>, bool) {
    if f.conflicted {
        (Some(FileStatus::Conflicted), false)
    } else if f.index_new {
        (Some(FileStatus::Added), true)
    } else if f.index_modified {
        (Some(FileStatus::Modified), true)
    } else if f.index_deleted {
        (Some(FileStatus::Deleted), true)
    } else if f.index_renamed {
        (Some(FileStatus::Renamed), true)
    } else if f.wt_new {
        (Some(FileStatus::Untracked), false)
    } else if f.wt_modified {
        (Some(FileStatus::Modified), false)
    } else if f.wt_deleted {
        (Some(FileStatus::Deleted), false)
    } else if f.wt_renamed {
        (Some(FileStatus::Renamed), false)
    } else {
        (None, false)
    }
}

/// Classify raw status flags into a status kind and a staged bit.
pub fn parse_status(flags: StatusFlags) -> (r: (Option<FileStatus>, bool))
    ensures
        r == parse_status_spec(flags),
{
    if flags.conflicted {
        (Some(FileStatus::Conflicted), false)
    } else if flags.index_new {
        (Some(FileStatus::Added), true)
    } else if flags.index_modified {
        (Some(FileStatus::Modified), true)
    } else if flags.index_deleted {
        (Some(FileStatus::Deleted), true)
    } else if flags.index_renamed {
        (Some(FileStatus::Renamed), true)
    } else if flags.wt_new {
        (Some(FileStatus::Untracked), false)
    } else if flags.wt_modified {
        (Some(FileStatus::Modified), false)
    } else if flags.wt_deleted {
        (Some(FileStatus::Deleted), false)
    } else if flags.wt_renamed {
        (Some(FileStatus::Renamed), false)
    } else {
        (None, false)
    }
}

} // verus!
