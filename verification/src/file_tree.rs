//! Entries of the file tree: files, directories and symbolic links with their
//! display state, and the per-entry summaries that the tree aggregates.
use vstd::prelude::*;
use crate::text::{opt_str_view, opt_string_view};

verus! {

/// What `Path::file_name` gives for a path, on the platform the crate is
/// built for, taken as a UTF-8 string.
pub uninterp spec fn path_file_name(path: Seq<char>) -> Option<Seq<char>>;

/// What `Path::extension` gives for a path, on the platform the crate is
/// built for, taken as a UTF-8 string.
pub uninterp spec fn path_extension(path: Seq<char>) -> Option<Seq<char>>;

/// Calls `Path::file_name` on the path and reads the name as UTF-8; the
/// contract only names the result.
#[verifier::external_body]
pub(crate) fn file_name_of(path: &str) -> (r: Option<&str>)
    ensures
        opt_str_view(r) == path_file_name(path@),
{
    std::path::Path::new(path).file_name().and_then(|name| name.to_str())
}

/// Calls `Path::extension` on the path and reads it as UTF-8; the contract
/// only names the result.
#[verifier::external_body]
fn extension_of(path: &str) -> (r: Option<String>)
    ensures
        opt_string_view(r) == path_extension(path@),
{
    std::path::Path::new(path).extension().and_then(|ext| ext.to_str()).map(|ext| ext.to_string())
}

/// Unique identifier of a file tree entry.
#[derive(Debug, Clone, Copy, PartialEq, Eq, PartialOrd, Ord, Hash)]
pub struct FileTreeEntryId(pub u64);

/// The kinds of file system entries.
#[derive(Debug, Clone, PartialEq)]
pub enum FileKind {
    File { extension: Option<String> },
    Directory {
        /// Whether the directory's children have been read.
        is_loaded: bool,
        /// How many children it has.
        child_count: usize,
    },
    Symlink {
        /// Where the link points.
        target: Option<String>,
        /// Whether that target exists.
        target_exists: bool,
    },
}

/// Version-control status of a file.
#[derive(Debug, Clone, Copy, PartialEq, Eq)]
pub enum GitStatus {
    Untracked,
    Modified,
    Added,
    Deleted,
    Renamed,
    UpToDate,
    Conflicted,
}

/// One entry of the file tree.
#[derive(Debug, Clone, PartialEq)]
pub struct FileTreeEntry {
    pub id: FileTreeEntryId,
    /// Full path of the file or directory.
    pub path: String,
    pub kind: FileKind,
    /// Size in bytes (0 for directories and links).
    pub size: u64,
    /// Last modification, in milliseconds since the Unix epoch.
    pub mtime: Option<u64>,
    pub git_status: Option<GitStatus>,
    pub is_visible: bool,
    /// Whether this directory is expanded (only for directories).
    pub is_expanded: bool,
    /// Depth in the tree (0 at the root).
    pub depth: usize,
    /// Whether version control ignores the entry.
    pub is_ignored: bool,
    /// Whether the name starts with a dot.
    pub is_hidden: bool,
}

/// Whether a file name marks a hidden entry: it starts with a dot.
pub open spec fn is_hidden_name(name: Option<Seq<char>>) -> bool {
    match name {
        Some(n) => n.len() > 0 && n[0] == '.',
        None => false,
    }
}

/// Whether the name (if any) starts with a dot.
pub fn hidden_file_name(name: Option<&str>) -> (r: bool)
    ensures
        r == is_hidden_name(opt_str_view(name)),
{
    match name {
        Some(n) => {
            if n.unicode_len() == 0 {
                false
            } else {
                n.get_char(0) == '.'
            }
        },
        None => false,
    }
}

/// The state every new entry starts in: no version-control status, visible,
/// collapsed, at the root, not ignored, hidden when its name starts with a dot.
pub open spec fn fresh_entry(e: FileTreeEntry, id: FileTreeEntryId, path: Seq<char>, mtime: Option<u64>) -> bool {
    &&& e.id == id
    &&& e.path@ == path
    &&& e.mtime == mtime
    &&& e.git_status is None
    &&& e.is_visible
    &&& !e.is_expanded
    &&& e.depth == 0
    &&& !e.is_ignored
    &&& e.is_hidden == is_hidden_name(path_file_name(path))
}

impl FileTreeEntry {
    /// A new file entry; its extension is the path's.
    pub fn new_file(id: FileTreeEntryId, path: String, size: u64, mtime: Option<u64>) -> (r:
        FileTreeEntry)
        ensures
            fresh_entry(r, id, path@, mtime),
            r.size == size,
            r.kind matches FileKind::File { extension } && opt_string_view(extension)
                == path_extension(path@),
    {
        let extension = extension_of(path.as_str());
        let is_hidden = hidden_file_name(file_name_of(path.as_str()));
        FileTreeEntry {
            id,
            path,
            kind: FileKind::File { extension },
            size,
            mtime,
            git_status: None,
            is_visible: true,
            is_expanded: false,
            depth: 0,
            is_ignored: false,
            is_hidden,
        }
    }

    /// A new directory entry, not yet loaded and without children.
    pub fn new_directory(id: FileTreeEntryId, path: String, mtime: Option<u64>) -> (r:
        FileTreeEntry)
        ensures
            fresh_entry(r, id, path@, mtime),
            r.size == 0,
            r.kind == (FileKind::Directory { is_loaded: false, child_count: 0 }),
    {
        let is_hidden = hidden_file_name(file_name_of(path.as_str()));
        FileTreeEntry {
            id,
            path,
            kind: FileKind::Directory { is_loaded: false, child_count: 0 },
            size: 0,
            mtime,
            git_status: None,
            is_visible: true,
            is_expanded: false,
            depth: 0,
            is_ignored: false,
            is_hidden,
        }
    }

    /// A new symbolic link entry.
    pub fn new_symlink(
        id: FileTreeEntryId,
        path: String,
        target: Option<String>,
        target_exists: bool,
        mtime: Option<u64>,
    ) -> (r: FileTreeEntry)
        ensures
            fresh_entry(r, id, path@, mtime),
            r.size == 0,
            r.kind == (FileKind::Symlink { target, target_exists }),
    {
        let is_hidden = hidden_file_name(file_name_of(path.as_str()));
        FileTreeEntry {
            id,
            path,
            kind: FileKind::Symlink { target, target_exists },
            size: 0,
            mtime,
            git_status: None,
            is_visible: true,
            is_expanded: false,
            depth: 0,
            is_ignored: false,
            is_hidden,
        }
    }

    /// The last component of the path, if it has one that is valid text.
    pub fn file_name(&self) -> (r: Option<&str>)
        ensures
            opt_str_view(r) == path_file_name(self.path@),
    {
        file_name_of(self.path.as_str())
    }

    /// Whether the entry is a directory.
    pub fn is_directory(&self) -> (r: bool)
        ensures
            r == self.kind is Directory,
    {
        match self.kind {
            FileKind::Directory { .. } => true,
            _ => false,
        }
    }

    /// Whether the entry is a file.
    pub fn is_file(&self) -> (r: bool)
        ensures
            r == self.kind is File,
    {
        match self.kind {
            FileKind::File { .. } => true,
            _ => false,
        }
    }

    /// Whether the entry is a symbolic link.
    pub fn is_symlink(&self) -> (r: bool)
        ensures
            r == self.kind is Symlink,
    {
        match self.kind {
            FileKind::Symlink { .. } => true,
            _ => false,
        }
    }

    /// The extension of a file entry; nothing for other entries.
    pub fn extension(&self) -> (r: Option<&str>)
        ensures
            opt_str_view(r) == match self.kind {
                FileKind::File { extension } => opt_string_view(extension),
                _ => None,
            },
    {
        match &self.kind {
            FileKind::File { extension } => match extension {
                Some(e) => Some(e.as_str()),
                None => None,
            },
            _ => None,
        }
    }

    /// Whether this is an expanded directory.
    pub fn is_expanded(&self) -> (r: bool)
        ensures
            r == (self.kind is Directory && self.is_expanded),
    {
        self.is_directory() && self.is_expanded
    }

    /// Sets the expanded state of a directory; other entries stay as they are.
    pub fn set_expanded(&mut self, expanded: bool)
        ensures
            *final(self) == (if old(self).kind is Directory {
                FileTreeEntry { is_expanded: expanded, ..*old(self) }
            } else {
                *old(self)
            }),
    {
        if self.is_directory() {
            self.is_expanded = expanded;
        }
    }

    /// Records the version-control status.
    pub fn set_git_status(&mut self, status: GitStatus)
        ensures
            *final(self) == (FileTreeEntry { git_status: Some(status), ..*old(self) }),
    {
        self.git_status = Some(status);
    }

    /// Forgets the version-control status.
    pub fn clear_git_status(&mut self)
        ensures
            *final(self) == (FileTreeEntry { git_status: None, ..*old(self) }),
    {
        self.git_status = None;
    }

    /// What this entry adds to the summary of a tree: one entry, visible or
    /// not, a file or a directory or neither, its size, depth and path.
    pub fn summary(&self) -> (r: FileTreeSummary)
        ensures
            r.count == 1,
            r.visible_count == (if self.is_visible { 1usize } else { 0 }),
            r.file_count == (if self.kind is File { 1usize } else { 0 }),
            r.directory_count == (if self.kind is Directory { 1usize } else { 0 }),
            r.total_size == self.size,
            r.max_depth == self.depth,
            r.max_path@ == self.path@,
    {
        FileTreeSummary {
            count: 1,
            visible_count: if self.is_visible {
                1
            } else {
                0
            },
            file_count: if self.is_file() {
                1
            } else {
                0
            },
            directory_count: if self.is_directory() {
                1
            } else {
                0
            },
            total_size: self.size,
            max_depth: self.depth,
            max_path: self.path.clone(),
        }
    }
}

/// Aggregate of a run of entries.
#[derive(Debug, Clone, PartialEq)]
pub struct FileTreeSummary {
    pub count: usize,
    pub visible_count: usize,
    pub file_count: usize,
    pub directory_count: usize,
    pub total_size: u64,
    pub max_depth: usize,
    pub max_path: String,
}

/// Key for path lookups in the tree.
#[derive(Debug, Clone, PartialEq, Eq, PartialOrd, Ord)]
pub struct FileTreePathKey(pub String);

/// Position counted in visible entries.
#[derive(Debug, Clone, Copy, PartialEq, Eq, PartialOrd, Ord, Default)]
pub struct IndexDimension(pub usize);

/// The greatest path seen.
#[derive(Debug, Clone, PartialEq, Eq, PartialOrd, Ord, Default)]
pub struct PathDimension(pub String);

/// The greatest depth seen.
#[derive(Debug, Clone, Copy, PartialEq, Eq, PartialOrd, Ord, Default)]
pub struct DepthDimension(pub usize);

/// The total size seen.
#[derive(Debug, Clone, Copy, PartialEq, Eq, PartialOrd, Ord, Default)]
pub struct SizeDimension(pub u64);

impl FileTreeEntry {
    /// The key of the entry: its path.
    pub fn key(&self) -> (r: FileTreePathKey)
        ensures
            r.0@ == self.path@,
    {
        FileTreePathKey(self.path.clone())
    }
}

impl IndexDimension {
    /// Before any entry.
    pub fn zero() -> (r: IndexDimension)
        ensures
            r.0 == 0,
    {
        IndexDimension(0)
    }

    /// Counts the visible entries of a summary.
    pub fn add_summary(&mut self, summary: &FileTreeSummary)
        requires
            old(self).0 + summary.visible_count <= usize::MAX,
        ensures
            final(self).0 == old(self).0 + summary.visible_count,
    {
        self.0 = self.0 + summary.visible_count;
    }
}

impl PathDimension {
    /// Before any entry: the empty path.
    pub fn zero() -> (r: PathDimension)
        ensures
            r.0@ == Seq::<char>::empty(),
    {
        PathDimension(String::new())
    }

    /// Moves to the greatest path of a summary.
    pub fn add_summary(&mut self, summary: &FileTreeSummary)
        ensures
            final(self).0@ == summary.max_path@,
    {
        self.0 = summary.max_path.clone();
    }
}

impl DepthDimension {
    /// Before any entry.
    pub fn zero() -> (r: DepthDimension)
        ensures
            r.0 == 0,
    {
        DepthDimension(0)
    }

    /// The greater of the depth so far and the summary's.
    pub fn add_summary(&mut self, summary: &FileTreeSummary)
        ensures
            final(self).0 == (if old(self).0 >= summary.max_depth { old(self).0 } else { summary.max_depth }),
    {
        if summary.max_depth > self.0 {
            self.0 = summary.max_depth;
        }
    }
}

impl SizeDimension {
    /// Before any entry.
    pub fn zero() -> (r: SizeDimension)
        ensures
            r.0 == 0,
    {
        SizeDimension(0)
    }

    /// Adds the total size of a summary.
    pub fn add_summary(&mut self, summary: &FileTreeSummary)
        requires
            old(self).0 + summary.total_size <= u64::MAX,
        ensures
            final(self).0 == old(self).0 + summary.total_size,
    {
        self.0 = self.0 + summary.total_size;
    }
}

impl FileTreePathKey {
    /// The empty path.
    pub fn zero() -> (r: FileTreePathKey)
        ensures
            r.0@ == Seq::<char>::empty(),
    {
        FileTreePathKey(String::new())
    }

    /// A path key stays the same whatever summaries pass.
    pub fn add_summary(&mut self, summary: &FileTreeSummary)
        ensures
            *final(self) == *old(self),
    {
    }
}

/// Statistics about a file tree.
#[derive(Debug, Clone, PartialEq)]
pub struct FileTreeStats {
    pub total_entries: usize,
    pub visible_entries: usize,
    pub file_count: usize,
    pub directory_count: usize,
    pub total_size: u64,
    pub max_depth: usize,
}

} // verus!
