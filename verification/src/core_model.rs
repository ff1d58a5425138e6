//! Plain-value model of the compare engine's results, as the UI reads them.

use vstd::prelude::*;

verus! {

/// Filesystem kind of one compared entry.
#[derive(Debug, Clone, Copy, PartialEq, Eq, Structural)]
pub enum EntryKind {
    File,
    Directory,
    Symlink,
    Other,
}

/// Compare status of one entry.
#[derive(Debug, Clone, Copy, PartialEq, Eq, Structural)]
pub enum EntryStatus {
    LeftOnly,
    RightOnly,
    Equal,
    Different,
    Pending,
    Skipped,
}

/// Why the text detail of an entry was deferred.
#[derive(Debug, Clone, Copy, PartialEq, Eq, Structural)]
pub enum TextDetailDeferredReason {
    LargeDirectoryMode,
    FileTooLarge,
}

/// Line counts of a text diff.
#[derive(Debug, Clone, Copy, PartialEq, Eq, Structural)]
pub struct TextDiffSummary {
    pub hunk_count: usize,
    pub added_lines: usize,
    pub removed_lines: usize,
    pub context_lines: usize,
}

/// Structured detail attached to a compared entry.
#[derive(Debug, Clone, PartialEq, Eq)]
pub enum EntryDetail {
    NoDetail,
    Message(String),
    TypeMismatch { left: EntryKind, right: EntryKind },
    FileComparison { left_size: u64, right_size: u64, content_checked: bool },
    ContentComparisonDeferred,
    TextDetailDeferred {
        reason: TextDetailDeferredReason,
        left_size: u64,
        right_size: u64,
        max_text_file_size_bytes: u64,
        content_checked: bool,
    },
    TextDiff(TextDiffSummary),
}

/// One compared entry, keyed by its path relative to the compare roots.
#[derive(Debug, Clone, PartialEq, Eq)]
pub struct CompareEntry {
    pub relative_path: String,
    pub kind: EntryKind,
    pub status: EntryStatus,
    pub detail: EntryDetail,
}

impl CompareEntry {
    /// An entry without detail.
    pub fn new(relative_path: &str, kind: EntryKind, status: EntryStatus) -> (r: Self)
        ensures
            r.relative_path@ == relative_path@,
            r.kind == kind,
            r.status == status,
            r.detail == EntryDetail::NoDetail,
    {
        CompareEntry {
            relative_path: crate::text::to_string(relative_path),
            kind,
            status,
            detail: EntryDetail::NoDetail,
        }
    }

    /// The same entry with `detail` attached.
    pub fn with_detail(self, detail: EntryDetail) -> (r: Self)
        ensures
            r.relative_path == self.relative_path,
            r.kind == self.kind,
            r.status == self.status,
            r.detail == detail,
    {
        CompareEntry { detail, ..self }
    }
}

/// Kind of one diff line.
#[derive(Debug, Clone, Copy, PartialEq, Eq, Structural)]
pub enum DiffLineKind {
    Context,
    Added,
    Removed,
}

/// One line of a text diff.
#[derive(Debug, Clone, PartialEq, Eq)]
pub struct DiffLine {
    pub kind: DiffLineKind,
    pub old_line_no: Option<usize>,
    pub new_line_no: Option<usize>,
    pub content: String,
}

/// One hunk of a text diff.
#[derive(Debug, Clone, PartialEq, Eq)]
pub struct DiffHunk {
    pub old_start: usize,
    pub old_len: usize,
    pub new_start: usize,
    pub new_len: usize,
    pub lines: Vec<DiffLine>,
}

/// Result of diffing one text file pair.
#[derive(Debug, Clone, PartialEq, Eq)]
pub struct TextDiffResult {
    pub summary: TextDiffSummary,
    pub hunks: Vec<DiffHunk>,
    pub truncated: bool,
    pub warning: Option<String>,
}

/// Counters of a directory compare.
#[derive(Debug, Clone, Copy, PartialEq, Eq, Structural)]
pub struct CompareSummary {
    pub total_entries: usize,
    pub equal: usize,
    pub different: usize,
    pub left_only: usize,
    pub right_only: usize,
    pub pending: usize,
    pub skipped: usize,
    pub deferred_detail_entries: usize,
    pub oversized_text_entries: usize,
    pub large_mode: bool,
    pub summary_first_mode: bool,
}

/// Result of one directory compare.
#[derive(Debug, Clone, PartialEq, Eq)]
pub struct CompareReport {
    pub summary: CompareSummary,
    pub entries: Vec<CompareEntry>,
    pub warnings: Vec<String>,
    pub truncated: bool,
}

} // verus!
