//! Structured compare-data foundation for workspace-level projections.

use vstd::prelude::*;
use crate::core_model::{
    CompareEntry, EntryDetail, EntryKind, EntryStatus, TextDetailDeferredReason,
};
use crate::paths;
use crate::paths::{normalize_chars, normalize_relative_path};
use crate::text;
use crate::text::{chars_of, push_bool, push_dec, push_dec_usize, push_str, string_from_chars};
use crate::view_models::CompareEntryRowViewModel;

verus! {

/// Rust-owned compare focus anchor; `None` is the compare root itself.
#[derive(Debug, Clone, PartialEq, Eq)]
pub struct CompareFocusPath {
    relative_path: Option<String>,
}

impl View for CompareFocusPath {
    type V = Option<Seq<char>>;

    closed spec fn view(&self) -> Option<Seq<char>> {
        match self.relative_path {
            Some(p) => Some(p@),
            None => None,
        }
    }
}

/// The focus that `CompareFocusPath::relative` makes of a path.
pub open spec fn focus_of(path: Seq<char>) -> Option<Seq<char>> {
    let n = paths::normalize_path(path);
    if n.len() == 0 {
        None
    } else {
        Some(n)
    }
}

impl CompareFocusPath {
    /// The compare root.
    pub fn root() -> (r: Self)
        ensures
            r@ is None,
    {
        CompareFocusPath { relative_path: None }
    }

    /// A focus on the normal form of `relative_path`, or the root when that is empty.
    pub fn relative(relative_path: &str) -> (r: Self)
        ensures
            r@ == focus_of(relative_path@),
    {
        let normalized = normalize_relative_path(relative_path);
        if normalized.as_str().unicode_len() == 0 {
            Self::root()
        } else {
            CompareFocusPath { relative_path: Some(normalized) }
        }
    }

    /// The focused relative path; `None` for the root.
    pub fn as_relative_path(&self) -> (r: Option<&str>)
        ensures
            r matches Some(s) ==> self@ == Some(s@),
            r is None ==> self@ is None,
    {
        match &self.relative_path {
            Some(p) => Some(p.as_str()),
            None => None,
        }
    }

    /// The focused relative path; empty for the root.
    pub fn raw_text(&self) -> (r: String)
        ensures
            r@ == match self@ {
                Some(p) => p,
                None => Seq::<char>::empty(),
            },
    {
        match &self.relative_path {
            Some(p) => p.clone(),
            None => String::new(),
        }
    }

    pub fn is_root(&self) -> (r: bool)
        ensures
            r == (self@ is None),
    {
        self.relative_path.is_none()
    }
}

/// Side presence normalized for workspace projections.
#[derive(Debug, Clone, Copy, PartialEq, Eq, Structural)]
pub struct CompareSidePresence {
    pub left: bool,
    pub right: bool,
}

impl CompareSidePresence {
    /// Present on a side when either input is.
    pub fn merge(self, other: Self) -> (r: Self)
        ensures
            r.left == (self.left || other.left),
            r.right == (self.right || other.right),
    {
        CompareSidePresence { left: self.left || other.left, right: self.right || other.right }
    }
}

impl Default for CompareSidePresence {
    fn default() -> (r: Self)
        ensures
            !r.left && !r.right,
    {
        CompareSidePresence { left: false, right: false }
    }
}

/// Base compare status normalized for workspace projections.
#[derive(Debug, Clone, Copy, PartialEq, Eq, Structural)]
pub enum CompareBaseStatus {
    LeftOnly,
    RightOnly,
    Equal,
    Different,
    Pending,
    Skipped,
}

pub open spec fn status_token(s: CompareBaseStatus) -> Seq<char> {
    match s {
        CompareBaseStatus::LeftOnly => "left-only"@,
        CompareBaseStatus::RightOnly => "right-only"@,
        CompareBaseStatus::Equal => "equal"@,
        CompareBaseStatus::Different => "different"@,
        CompareBaseStatus::Pending => "pending"@,
        CompareBaseStatus::Skipped => "skipped"@,
    }
}

/// Which sides an entry of a status is present on.
pub open spec fn presence_of(s: CompareBaseStatus) -> CompareSidePresence {
    match s {
        CompareBaseStatus::LeftOnly => CompareSidePresence { left: true, right: false },
        CompareBaseStatus::RightOnly => CompareSidePresence { left: false, right: true },
        _ => CompareSidePresence { left: true, right: true },
    }
}

/// Status of a group: the common status when all agree, `Different` otherwise,
/// the fallback `Equal` when there is none.
pub open spec fn agg_status(s: Seq<CompareBaseStatus>) -> CompareBaseStatus {
    if s.len() == 0 {
        CompareBaseStatus::Equal
    } else if forall|k: int| 0 <= k < s.len() ==> #[trigger] s[k] == s[0] {
        s[0]
    } else {
        CompareBaseStatus::Different
    }
}

/// Presence of a group: a side is present when any member is present there.
pub open spec fn agg_presence(s: Seq<CompareSidePresence>) -> CompareSidePresence {
    CompareSidePresence {
        left: exists|k: int| 0 <= k < s.len() && (#[trigger] s[k]).left,
        right: exists|k: int| 0 <= k < s.len() && (#[trigger] s[k]).right,
    }
}

impl CompareBaseStatus {
    pub fn as_str(self) -> (r: &'static str)
        ensures
            r@ == status_token(self),
    {
        match self {
            CompareBaseStatus::LeftOnly => "left-only",
            CompareBaseStatus::RightOnly => "right-only",
            CompareBaseStatus::Equal => "equal",
            CompareBaseStatus::Different => "different",
            CompareBaseStatus::Pending => "pending",
            CompareBaseStatus::Skipped => "skipped",
        }
    }

    /// The common status of all, `Different` when they disagree, `fallback` when empty.
    pub fn aggregate(statuses: &[CompareBaseStatus], fallback: CompareBaseStatus) -> (r: Self)
        ensures
            statuses@.len() == 0 ==> r == fallback,
            statuses@.len() > 0 ==> r == agg_status(statuses@),
    {
        if statuses.len() == 0 {
            return fallback;
        }
        let first = statuses[0];
        for i in 1..statuses.len()
            invariant
                first == statuses@[0],
                forall|k: int| 0 <= k < i ==> #[trigger] statuses@[k] == first,
        {
            if statuses[i] != first {
                return CompareBaseStatus::Different;
            }
        }
        first
    }

    pub fn side_presence(self) -> (r: CompareSidePresence)
        ensures
            r == presence_of(self),
    {
        match self {
            CompareBaseStatus::LeftOnly => CompareSidePresence { left: true, right: false },
            CompareBaseStatus::RightOnly => CompareSidePresence { left: false, right: true },
            _ => CompareSidePresence { left: true, right: true },
        }
    }
}

/// Compare node kind normalized for workspace/data projections.
#[derive(Debug, Clone, Copy, PartialEq, Eq, Structural)]
pub enum CompareNodeKind {
    Root,
    File,
    Directory,
    Symlink,
    Other,
}

pub open spec fn kind_token(k: CompareNodeKind) -> Seq<char> {
    match k {
        CompareNodeKind::Root => "root"@,
        CompareNodeKind::File => "file"@,
        CompareNodeKind::Directory => "directory"@,
        CompareNodeKind::Symlink => "symlink"@,
        CompareNodeKind::Other => "other"@,
    }
}

pub open spec fn is_dir_kind(k: CompareNodeKind) -> bool {
    k == CompareNodeKind::Root || k == CompareNodeKind::Directory
}

impl CompareNodeKind {
    pub fn as_str(self) -> (r: &'static str)
        ensures
            r@ == kind_token(self),
    {
        match self {
            CompareNodeKind::Root => "root",
            CompareNodeKind::File => "file",
            CompareNodeKind::Directory => "directory",
            CompareNodeKind::Symlink => "symlink",
            CompareNodeKind::Other => "other",
        }
    }

    pub fn display_label(self) -> (r: &'static str)
        ensures
            r@ == match self {
                CompareNodeKind::Root | CompareNodeKind::Directory => "Directory"@,
                CompareNodeKind::File => "File"@,
                CompareNodeKind::Symlink => "Symlink"@,
                CompareNodeKind::Other => "Special entry"@,
            },
    {
        match self {
            CompareNodeKind::Root | CompareNodeKind::Directory => "Directory",
            CompareNodeKind::File => "File",
            CompareNodeKind::Symlink => "Symlink",
            CompareNodeKind::Other => "Special entry",
        }
    }

    pub fn is_directory_target(self) -> (r: bool)
        ensures
            r == is_dir_kind(self),
    {
        match self {
            CompareNodeKind::Root | CompareNodeKind::Directory => true,
            _ => false,
        }
    }
}

/// Normalized text-detail deferral reason.
#[derive(Debug, Clone, Copy, PartialEq, Eq, Structural)]
pub enum CompareTextDeferredReason {
    LargeDirectoryMode,
    FileTooLarge,
}

pub open spec fn deferred_label(r: CompareTextDeferredReason) -> Seq<char> {
    match r {
        CompareTextDeferredReason::LargeDirectoryMode => "large-directory mode"@,
        CompareTextDeferredReason::FileTooLarge => "file too large"@,
    }
}

impl CompareTextDeferredReason {
    pub fn label(self) -> (r: &'static str)
        ensures
            r@ == deferred_label(self),
    {
        match self {
            CompareTextDeferredReason::LargeDirectoryMode => "large-directory mode",
            CompareTextDeferredReason::FileTooLarge => "file too large",
        }
    }
}

/// Structured compare detail normalized for presenter/state projections.
#[derive(Debug, Clone, PartialEq, Eq)]
pub enum CompareFoundationDetail {
    NoDetail,
    Message { message: String },
    TypeMismatch { left: CompareNodeKind, right: CompareNodeKind },
    FileComparison { left_size: u64, right_size: u64, content_checked: bool },
    ContentComparisonDeferred,
    TextDetailDeferred {
        reason: CompareTextDeferredReason,
        left_size: u64,
        right_size: u64,
        max_text_file_size_bytes: u64,
        content_checked: bool,
    },
    TextDiffSummary {
        hunk_count: usize,
        added_lines: usize,
        removed_lines: usize,
        context_lines: usize,
    },
}

pub open spec fn detail_kind_token(d: CompareFoundationDetail) -> Seq<char> {
    match d {
        CompareFoundationDetail::NoDetail => "none"@,
        CompareFoundationDetail::Message { .. } => "message"@,
        CompareFoundationDetail::TypeMismatch { .. } => "type-mismatch"@,
        CompareFoundationDetail::FileComparison { .. } => "file-comparison"@,
        CompareFoundationDetail::ContentComparisonDeferred => "content-comparison-deferred"@,
        CompareFoundationDetail::TextDetailDeferred { .. } => "text-detail-deferred"@,
        CompareFoundationDetail::TextDiffSummary { .. } => "text-diff"@,
    }
}

/// The one-line detail text of the flat result rows.
pub open spec fn legacy_text_of(d: CompareFoundationDetail, kind: CompareNodeKind) -> Seq<char> {
    match d {
        CompareFoundationDetail::NoDetail => "kind="@ + kind_token(kind),
        CompareFoundationDetail::Message { message } => message@,
        CompareFoundationDetail::TypeMismatch { left, right } => "type mismatch: left="@
            + kind_token(left) + " right="@ + kind_token(right),
        CompareFoundationDetail::FileComparison { left_size, right_size, content_checked } =>
            "file compare: left="@ + text::dec(left_size as nat) + "B right="@ + text::dec(
            right_size as nat,
        ) + "B content_checked="@ + text::bool_text(content_checked),
        CompareFoundationDetail::ContentComparisonDeferred => "content comparison deferred"@,
        CompareFoundationDetail::TextDetailDeferred {
            reason,
            left_size,
            right_size,
            max_text_file_size_bytes,
            content_checked,
        } => "text detail deferred ("@ + deferred_label(reason) + "): left="@ + text::dec(
            left_size as nat,
        ) + "B right="@ + text::dec(right_size as nat) + "B limit="@ + text::dec(
            max_text_file_size_bytes as nat,
        ) + "B content_checked="@ + text::bool_text(content_checked),
        CompareFoundationDetail::TextDiffSummary {
            hunk_count,
            added_lines,
            removed_lines,
            context_lines,
        } => "text summary: hunks="@ + text::dec(hunk_count as nat) + " +"@ + text::dec(
            added_lines as nat,
        ) + " -"@ + text::dec(removed_lines as nat) + " ctx="@ + text::dec(context_lines as nat),
    }
}

impl CompareFoundationDetail {
    pub fn kind_token(&self) -> (r: &'static str)
        ensures
            r@ == detail_kind_token(*self),
    {
        match self {
            CompareFoundationDetail::NoDetail => "none",
            CompareFoundationDetail::Message { .. } => "message",
            CompareFoundationDetail::TypeMismatch { .. } => "type-mismatch",
            CompareFoundationDetail::FileComparison { .. } => "file-comparison",
            CompareFoundationDetail::ContentComparisonDeferred => "content-comparison-deferred",
            CompareFoundationDetail::TextDetailDeferred { .. } => "text-detail-deferred",
            CompareFoundationDetail::TextDiffSummary { .. } => "text-diff",
        }
    }

    pub fn legacy_text(&self, kind: CompareNodeKind) -> (r: String)
        ensures
            r@ == legacy_text_of(*self, kind),
    {
        let mut out: Vec<char> = Vec::new();
        match self {
            CompareFoundationDetail::NoDetail => {
                push_str(&mut out, "kind=");
                push_str(&mut out, kind.as_str());
            },
            CompareFoundationDetail::Message { message } => {
                push_str(&mut out, message.as_str());
            },
            CompareFoundationDetail::TypeMismatch { left, right } => {
                push_str(&mut out, "type mismatch: left=");
                push_str(&mut out, left.as_str());
                push_str(&mut out, " right=");
                push_str(&mut out, right.as_str());
            },
            CompareFoundationDetail::FileComparison { left_size, right_size, content_checked } => {
                push_str(&mut out, "file compare: left=");
                push_dec(&mut out, *left_size);
                push_str(&mut out, "B right=");
                push_dec(&mut out, *right_size);
                push_str(&mut out, "B content_checked=");
                push_bool(&mut out, *content_checked);
            },
            CompareFoundationDetail::ContentComparisonDeferred => {
                push_str(&mut out, "content comparison deferred");
            },
            CompareFoundationDetail::TextDetailDeferred {
                reason,
                left_size,
                right_size,
                max_text_file_size_bytes,
                content_checked,
            } => {
                push_str(&mut out, "text detail deferred (");
                push_str(&mut out, reason.label());
                push_str(&mut out, "): left=");
                push_dec(&mut out, *left_size);
                push_str(&mut out, "B right=");
                push_dec(&mut out, *right_size);
                push_str(&mut out, "B limit=");
                push_dec(&mut out, *max_text_file_size_bytes);
                push_str(&mut out, "B content_checked=");
                push_bool(&mut out, *content_checked);
            },
            CompareFoundationDetail::TextDiffSummary {
                hunk_count,
                added_lines,
                removed_lines,
                context_lines,
            } => {
                push_str(&mut out, "text summary: hunks=");
                push_dec_usize(&mut out, *hunk_count);
                push_str(&mut out, " +");
                push_dec_usize(&mut out, *added_lines);
                push_str(&mut out, " -");
                push_dec_usize(&mut out, *removed_lines);
                push_str(&mut out, " ctx=");
                push_dec_usize(&mut out, *context_lines);
            },
        }
        proof {
            assert(out@ =~= legacy_text_of(*self, kind));
        }
        string_from_chars(&out)
    }
}

/// Structured reason why detailed diff cannot load.
#[derive(Debug, Clone, PartialEq, Eq)]
pub enum CompareDiffUnavailableReason {
    NonFileEntry,
    SkippedEntry,
    TypeMismatch,
    NonTextFileComparison,
    DetailMessage(String),
}

pub open spec fn diff_reason_text(r: CompareDiffUnavailableReason) -> Seq<char> {
    match r {
        CompareDiffUnavailableReason::NonFileEntry =>
            "detailed text diff is only available for file entries"@,
        CompareDiffUnavailableReason::SkippedEntry =>
            "entry was skipped during compare and cannot load detailed diff"@,
        CompareDiffUnavailableReason::TypeMismatch =>
            "type mismatch entries cannot load detailed text diff"@,
        CompareDiffUnavailableReason::NonTextFileComparison =>
            "entry was compared as non-text/binary candidate, detailed text diff unavailable"@,
        CompareDiffUnavailableReason::DetailMessage(message) =>
            "entry detail indicates detailed text diff is unavailable: "@ + message@,
    }
}

impl CompareDiffUnavailableReason {
    pub fn to_text(&self) -> (r: String)
        ensures
            r@ == diff_reason_text(*self),
    {
        let mut out: Vec<char> = Vec::new();
        match self {
            CompareDiffUnavailableReason::NonFileEntry => {
                push_str(&mut out, "detailed text diff is only available for file entries");
            },
            CompareDiffUnavailableReason::SkippedEntry => {
                push_str(
                    &mut out,
                    "entry was skipped during compare and cannot load detailed diff",
                );
            },
            CompareDiffUnavailableReason::TypeMismatch => {
                push_str(&mut out, "type mismatch entries cannot load detailed text diff");
            },
            CompareDiffUnavailableReason::NonTextFileComparison => {
                push_str(
                    &mut out,
                    "entry was compared as non-text/binary candidate, detailed text diff unavailable",
                );
            },
            CompareDiffUnavailableReason::DetailMessage(message) => {
                push_str(&mut out, "entry detail indicates detailed text diff is unavailable: ");
                push_str(&mut out, message.as_str());
            },
        }
        proof {
            assert(out@ =~= diff_reason_text(*self));
        }
        string_from_chars(&out)
    }
}

/// Structured reason why AI analysis cannot load.
#[derive(Debug, Clone, PartialEq, Eq)]
pub enum CompareAnalysisUnavailableReason {
    DiffUnavailable(CompareDiffUnavailableReason),
    RequiresChangedFile,
    Custom(String),
}

pub open spec fn analysis_reason_text(r: CompareAnalysisUnavailableReason) -> Seq<char> {
    match r {
        CompareAnalysisUnavailableReason::DiffUnavailable(reason) => diff_reason_text(reason),
        CompareAnalysisUnavailableReason::RequiresChangedFile =>
            "AI analysis is only available for changed file entries"@,
        CompareAnalysisUnavailableReason::Custom(message) => message@,
    }
}

impl CompareAnalysisUnavailableReason {
    pub fn to_text(&self) -> (r: String)
        ensures
            r@ == analysis_reason_text(*self),
    {
        match self {
            CompareAnalysisUnavailableReason::DiffUnavailable(reason) => reason.to_text(),
            CompareAnalysisUnavailableReason::RequiresChangedFile => text::to_string(
                "AI analysis is only available for changed file entries",
            ),
            CompareAnalysisUnavailableReason::Custom(message) => message.clone(),
        }
    }
}

/// Detailed diff availability normalized away from widget-row strings.
#[derive(Debug, Clone, PartialEq, Eq)]
pub enum CompareDiffAvailability {
    Available,
    Unavailable(CompareDiffUnavailableReason),
}

/// AI analysis availability normalized away from widget-row strings.
#[derive(Debug, Clone, PartialEq, Eq)]
pub enum CompareAnalysisAvailability {
    Available,
    Unavailable(CompareAnalysisUnavailableReason),
}

/// Normalized compare capabilities for file-view projections.
#[derive(Debug, Clone, PartialEq, Eq)]
pub struct CompareEntryCapabilities {
    pub diff: CompareDiffAvailability,
    pub analysis: CompareAnalysisAvailability,
}

/// Capabilities of a node that no entry describes.
pub open spec fn default_caps(kind: CompareNodeKind) -> CompareEntryCapabilities {
    if kind == CompareNodeKind::File {
        CompareEntryCapabilities {
            diff: CompareDiffAvailability::Available,
            analysis: CompareAnalysisAvailability::Unavailable(
                CompareAnalysisUnavailableReason::RequiresChangedFile,
            ),
        }
    } else {
        CompareEntryCapabilities {
            diff: CompareDiffAvailability::Unavailable(CompareDiffUnavailableReason::NonFileEntry),
            analysis: CompareAnalysisAvailability::Unavailable(
                CompareAnalysisUnavailableReason::DiffUnavailable(
                    CompareDiffUnavailableReason::NonFileEntry,
                ),
            ),
        }
    }
}

impl CompareEntryCapabilities {
    pub fn default_for_kind(kind: CompareNodeKind) -> (r: Self)
        ensures
            r == default_caps(kind),
    {
        if kind == CompareNodeKind::File {
            CompareEntryCapabilities {
                diff: CompareDiffAvailability::Available,
                analysis: CompareAnalysisAvailability::Unavailable(
                    CompareAnalysisUnavailableReason::RequiresChangedFile,
                ),
            }
        } else {
            CompareEntryCapabilities {
                diff: CompareDiffAvailability::Unavailable(
                    CompareDiffUnavailableReason::NonFileEntry,
                ),
                analysis: CompareAnalysisAvailability::Unavailable(
                    CompareAnalysisUnavailableReason::DiffUnavailable(
                        CompareDiffUnavailableReason::NonFileEntry,
                    ),
                ),
            }
        }
    }

    pub fn can_load_diff(&self) -> (r: bool)
        ensures
            r == (self.diff is Available),
    {
        match self.diff {
            CompareDiffAvailability::Available => true,
            _ => false,
        }
    }

    pub fn diff_blocked_reason_text(&self) -> (r: Option<String>)
        ensures
            match self.diff {
                CompareDiffAvailability::Available => r is None,
                CompareDiffAvailability::Unavailable(reason) => r matches Some(t) && t@
                    == diff_reason_text(reason),
            },
    {
        match &self.diff {
            CompareDiffAvailability::Available => None,
            CompareDiffAvailability::Unavailable(reason) => Some(reason.to_text()),
        }
    }

    pub fn can_load_analysis(&self) -> (r: bool)
        ensures
            r == (self.analysis is Available),
    {
        match self.analysis {
            CompareAnalysisAvailability::Available => true,
            _ => false,
        }
    }

    pub fn analysis_blocked_reason_text(&self) -> (r: Option<String>)
        ensures
            match self.analysis {
                CompareAnalysisAvailability::Available => r is None,
                CompareAnalysisAvailability::Unavailable(reason) => r matches Some(t) && t@
                    == analysis_reason_text(reason),
            },
    {
        match &self.analysis {
            CompareAnalysisAvailability::Available => None,
            CompareAnalysisAvailability::Unavailable(reason) => Some(reason.to_text()),
        }
    }
}

/// One normalized compare node keyed by relative path.
#[derive(Debug, Clone, PartialEq, Eq)]
pub struct CompareFoundationNode {
    pub relative_path: String,
    pub display_name: String,
    pub parent_relative_path: Option<String>,
    pub kind: CompareNodeKind,
    pub path_depth: u16,
    pub source_index: Option<usize>,
    pub side_presence: CompareSidePresence,
    pub base_status: CompareBaseStatus,
    pub detail: CompareFoundationDetail,
    pub capabilities: CompareEntryCapabilities,
    pub child_relative_paths: Vec<String>,
}

impl CompareFoundationNode {
    pub fn is_directory_target(&self) -> (r: bool)
        ensures
            r == is_dir_kind(self.kind),
    {
        self.kind.is_directory_target()
    }

    pub fn has_compare_entry(&self) -> (r: bool)
        ensures
            r == (self.source_index is Some),
    {
        self.source_index.is_some()
    }
}

/// Stable child projection for Compare View immediate-children surfaces.
#[derive(Debug, Clone, PartialEq, Eq)]
pub struct CompareImmediateChild {
    pub relative_path: String,
    pub display_name: String,
    pub kind: CompareNodeKind,
    pub side_presence: CompareSidePresence,
    pub base_status: CompareBaseStatus,
    pub has_children: bool,
    pub source_index: Option<usize>,
}

// ---------------------------------------------------------------------------
// Mapping of compare entries
// ---------------------------------------------------------------------------

pub open spec fn kind_from_core(k: EntryKind) -> CompareNodeKind {
    match k {
        EntryKind::File => CompareNodeKind::File,
        EntryKind::Directory => CompareNodeKind::Directory,
        EntryKind::Symlink => CompareNodeKind::Symlink,
        EntryKind::Other => CompareNodeKind::Other,
    }
}

pub open spec fn status_from_core(s: EntryStatus) -> CompareBaseStatus {
    match s {
        EntryStatus::LeftOnly => CompareBaseStatus::LeftOnly,
        EntryStatus::RightOnly => CompareBaseStatus::RightOnly,
        EntryStatus::Equal => CompareBaseStatus::Equal,
        EntryStatus::Different => CompareBaseStatus::Different,
        EntryStatus::Pending => CompareBaseStatus::Pending,
        EntryStatus::Skipped => CompareBaseStatus::Skipped,
    }
}

pub open spec fn reason_from_core(r: TextDetailDeferredReason) -> CompareTextDeferredReason {
    match r {
        TextDetailDeferredReason::LargeDirectoryMode =>
            CompareTextDeferredReason::LargeDirectoryMode,
        TextDetailDeferredReason::FileTooLarge => CompareTextDeferredReason::FileTooLarge,
    }
}

pub open spec fn detail_from_core(d: EntryDetail) -> CompareFoundationDetail {
    match d {
        EntryDetail::NoDetail => CompareFoundationDetail::NoDetail,
        EntryDetail::Message(message) => CompareFoundationDetail::Message { message },
        EntryDetail::TypeMismatch { left, right } => CompareFoundationDetail::TypeMismatch {
            left: kind_from_core(left),
            right: kind_from_core(right),
        },
        EntryDetail::FileComparison { left_size, right_size, content_checked } =>
            CompareFoundationDetail::FileComparison { left_size, right_size, content_checked },
        EntryDetail::ContentComparisonDeferred => CompareFoundationDetail::ContentComparisonDeferred,
        EntryDetail::TextDetailDeferred {
            reason,
            left_size,
            right_size,
            max_text_file_size_bytes,
            content_checked,
        } => CompareFoundationDetail::TextDetailDeferred {
            reason: reason_from_core(reason),
            left_size,
            right_size,
            max_text_file_size_bytes,
            content_checked,
        },
        EntryDetail::TextDiff(s) => CompareFoundationDetail::TextDiffSummary {
            hunk_count: s.hunk_count,
            added_lines: s.added_lines,
            removed_lines: s.removed_lines,
            context_lines: s.context_lines,
        },
    }
}

/// Diff availability of an entry: files only; skipped files never; changed or
/// pending files unless their detail rules text diffing out.
pub open spec fn diff_from_core(e: CompareEntry) -> CompareDiffAvailability {
    if e.kind != EntryKind::File {
        CompareDiffAvailability::Unavailable(CompareDiffUnavailableReason::NonFileEntry)
    } else {
        match e.status {
            EntryStatus::LeftOnly | EntryStatus::RightOnly | EntryStatus::Equal =>
                CompareDiffAvailability::Available,
            EntryStatus::Skipped => CompareDiffAvailability::Unavailable(
                CompareDiffUnavailableReason::SkippedEntry,
            ),
            EntryStatus::Different | EntryStatus::Pending => match e.detail {
                EntryDetail::TypeMismatch { .. } => CompareDiffAvailability::Unavailable(
                    CompareDiffUnavailableReason::TypeMismatch,
                ),
                EntryDetail::FileComparison { .. } => CompareDiffAvailability::Unavailable(
                    CompareDiffUnavailableReason::NonTextFileComparison,
                ),
                EntryDetail::Message(message) => CompareDiffAvailability::Unavailable(
                    CompareDiffUnavailableReason::DetailMessage(message),
                ),
                _ => CompareDiffAvailability::Available,
            },
        }
    }
}

/// Capabilities of an entry: analysis needs a loadable diff of a changed file.
pub open spec fn caps_from_core(e: CompareEntry) -> CompareEntryCapabilities {
    let diff = diff_from_core(e);
    CompareEntryCapabilities {
        diff,
        analysis: match diff {
            CompareDiffAvailability::Unavailable(reason) => CompareAnalysisAvailability::Unavailable(
                CompareAnalysisUnavailableReason::DiffUnavailable(reason),
            ),
            CompareDiffAvailability::Available => if e.status == EntryStatus::Different {
                CompareAnalysisAvailability::Available
            } else {
                CompareAnalysisAvailability::Unavailable(
                    CompareAnalysisUnavailableReason::RequiresChangedFile,
                )
            },
        },
    }
}

/// A file entry that exists on one side only, or is equal on both sides, can
/// load its detailed diff; a diff is blocked as skipped exactly for a file
/// entry that the compare skipped; only a file can load a diff, and a file
/// that cannot says why.
pub proof fn lemma_diff_capability_of_entry(e: CompareEntry)
    ensures
        e.kind == EntryKind::File && (e.status == EntryStatus::LeftOnly || e.status
            == EntryStatus::RightOnly || e.status == EntryStatus::Equal) ==> caps_from_core(e).diff
            == CompareDiffAvailability::Available,
        (caps_from_core(e).diff == CompareDiffAvailability::Unavailable(
            CompareDiffUnavailableReason::SkippedEntry,
        )) <==> (e.kind == EntryKind::File && e.status == EntryStatus::Skipped),
        (caps_from_core(e).diff is Available) ==> e.kind == EntryKind::File,
        e.kind != EntryKind::File ==> caps_from_core(e).diff == CompareDiffAvailability::Unavailable(
            CompareDiffUnavailableReason::NonFileEntry,
        ),
{
}

pub fn compare_kind_from_core(kind: EntryKind) -> (r: CompareNodeKind)
    ensures
        r == kind_from_core(kind),
{
    match kind {
        EntryKind::File => CompareNodeKind::File,
        EntryKind::Directory => CompareNodeKind::Directory,
        EntryKind::Symlink => CompareNodeKind::Symlink,
        EntryKind::Other => CompareNodeKind::Other,
    }
}

pub fn compare_status_from_core(status: EntryStatus) -> (r: CompareBaseStatus)
    ensures
        r == status_from_core(status),
{
    match status {
        EntryStatus::LeftOnly => CompareBaseStatus::LeftOnly,
        EntryStatus::RightOnly => CompareBaseStatus::RightOnly,
        EntryStatus::Equal => CompareBaseStatus::Equal,
        EntryStatus::Different => CompareBaseStatus::Different,
        EntryStatus::Pending => CompareBaseStatus::Pending,
        EntryStatus::Skipped => CompareBaseStatus::Skipped,
    }
}

pub fn compare_detail_from_core(detail: &EntryDetail) -> (r: CompareFoundationDetail)
    ensures
        r == detail_from_core(*detail),
{
    match detail {
        EntryDetail::NoDetail => CompareFoundationDetail::NoDetail,
        EntryDetail::Message(message) => CompareFoundationDetail::Message {
            message: message.clone(),
        },
        EntryDetail::TypeMismatch { left, right } => CompareFoundationDetail::TypeMismatch {
            left: compare_kind_from_core(*left),
            right: compare_kind_from_core(*right),
        },
        EntryDetail::FileComparison { left_size, right_size, content_checked } =>
            CompareFoundationDetail::FileComparison {
                left_size: *left_size,
                right_size: *right_size,
                content_checked: *content_checked,
            },
        EntryDetail::ContentComparisonDeferred => CompareFoundationDetail::ContentComparisonDeferred,
        EntryDetail::TextDetailDeferred {
            reason,
            left_size,
            right_size,
            max_text_file_size_bytes,
            content_checked,
        } => CompareFoundationDetail::TextDetailDeferred {
            reason: match reason {
                TextDetailDeferredReason::LargeDirectoryMode =>
                    CompareTextDeferredReason::LargeDirectoryMode,
                TextDetailDeferredReason::FileTooLarge => CompareTextDeferredReason::FileTooLarge,
            },
            left_size: *left_size,
            right_size: *right_size,
            max_text_file_size_bytes: *max_text_file_size_bytes,
            content_checked: *content_checked,
        },
        EntryDetail::TextDiff(summary) => CompareFoundationDetail::TextDiffSummary {
            hunk_count: summary.hunk_count,
            added_lines: summary.added_lines,
            removed_lines: summary.removed_lines,
            context_lines: summary.context_lines,
        },
    }
}

pub fn compare_capabilities_from_core(entry: &CompareEntry) -> (r: CompareEntryCapabilities)
    ensures
        r == caps_from_core(*entry),
{
    let diff = if entry.kind != EntryKind::File {
        CompareDiffAvailability::Unavailable(CompareDiffUnavailableReason::NonFileEntry)
    } else {
        match entry.status {
            EntryStatus::LeftOnly | EntryStatus::RightOnly | EntryStatus::Equal => {
                CompareDiffAvailability::Available
            },
            EntryStatus::Skipped => {
                CompareDiffAvailability::Unavailable(CompareDiffUnavailableReason::SkippedEntry)
            },
            EntryStatus::Different | EntryStatus::Pending => match &entry.detail {
                EntryDetail::TypeMismatch { .. } => {
                    CompareDiffAvailability::Unavailable(CompareDiffUnavailableReason::TypeMismatch)
                },
                EntryDetail::FileComparison { .. } => CompareDiffAvailability::Unavailable(
                    CompareDiffUnavailableReason::NonTextFileComparison,
                ),
                EntryDetail::Message(message) => CompareDiffAvailability::Unavailable(
                    CompareDiffUnavailableReason::DetailMessage(message.clone()),
                ),
                _ => CompareDiffAvailability::Available,
            },
        }
    };
    let analysis = match &diff {
        CompareDiffAvailability::Unavailable(reason) => CompareAnalysisAvailability::Unavailable(
            CompareAnalysisUnavailableReason::DiffUnavailable(clone_diff_reason(reason)),
        ),
        CompareDiffAvailability::Available => {
            if entry.status == EntryStatus::Different {
                CompareAnalysisAvailability::Available
            } else {
                CompareAnalysisAvailability::Unavailable(
                    CompareAnalysisUnavailableReason::RequiresChangedFile,
                )
            }
        },
    };
    CompareEntryCapabilities { diff, analysis }
}

pub fn clone_diff_reason(r: &CompareDiffUnavailableReason) -> (c: CompareDiffUnavailableReason)
    ensures
        c == *r,
{
    match r {
        CompareDiffUnavailableReason::NonFileEntry => CompareDiffUnavailableReason::NonFileEntry,
        CompareDiffUnavailableReason::SkippedEntry => CompareDiffUnavailableReason::SkippedEntry,
        CompareDiffUnavailableReason::TypeMismatch => CompareDiffUnavailableReason::TypeMismatch,
        CompareDiffUnavailableReason::NonTextFileComparison =>
            CompareDiffUnavailableReason::NonTextFileComparison,
        CompareDiffUnavailableReason::DetailMessage(m) => CompareDiffUnavailableReason::DetailMessage(
            m.clone(),
        ),
    }
}

// ---------------------------------------------------------------------------
// The foundation
// ---------------------------------------------------------------------------

const COMPARE_ROOT_DISPLAY_NAME: &'static str = "compare root";

/// Canonical compare-data foundation: one node per relative path, plus the
/// normalized path of each source entry in source order.
#[derive(Debug, PartialEq, Eq)]
pub struct CompareFoundation {
    nodes: Vec<CompareFoundationNode>,
    ordered_source_paths: Vec<String>,
}

pub open spec fn opt_view(o: Option<String>) -> Option<Seq<char>> {
    match o {
        Some(s) => Some(s@),
        None => None,
    }
}

pub open spec fn capped_level(k: Seq<char>) -> int {
    if paths::key_level(k) <= 65535 {
        paths::key_level(k) as int
    } else {
        65535
    }
}

/// The root node `""`.
pub open spec fn root_shaped(n: CompareFoundationNode) -> bool {
    &&& n.relative_path@ == Seq::<char>::empty()
    &&& n.display_name@ == "compare root"@
    &&& n.parent_relative_path is None
    &&& n.kind == CompareNodeKind::Root
    &&& n.path_depth == 0
    &&& n.source_index is None
    &&& n.detail == CompareFoundationDetail::NoDetail
    &&& n.capabilities == default_caps(CompareNodeKind::Root)
}

/// A non-root node: its name, parent and depth follow from its key, which is
/// a normal, non-empty relative path.
pub open spec fn node_shaped(n: CompareFoundationNode) -> bool {
    let k = n.relative_path@;
    &&& k.len() > 0
    &&& paths::normal_key(k)
    &&& n.kind != CompareNodeKind::Root
    &&& n.display_name@ == paths::key_name(k)
    &&& opt_view(n.parent_relative_path) == if paths::last_slash(k) is Some {
        Some(paths::key_parent(k))
    } else {
        None
    }
    &&& n.path_depth as int == capped_level(k)
    &&& paths::key_level(paths::key_parent(k)) + 1 == paths::key_level(k)
}

pub open spec fn child_keys(n: CompareFoundationNode) -> Seq<Seq<char>> {
    n.child_relative_paths@.map_values(|c: String| c@)
}

pub open spec fn sorted_strict(s: Seq<Seq<char>>) -> bool {
    forall|m: int| 0 <= m < s.len() - 1 ==> text::lex_lt(#[trigger] s[m], s[m + 1])
}

/// What one source of compare data (an entry, or a flat row) tells the node
/// that its path names.
#[derive(Debug, Clone, PartialEq, Eq)]
pub struct SourceRecord {
    pub relative_path: String,
    pub kind: CompareNodeKind,
    pub status: CompareBaseStatus,
    pub detail: CompareFoundationDetail,
    pub capabilities: CompareEntryCapabilities,
}

/// The source record of a compare entry.
pub open spec fn record_of(e: CompareEntry) -> SourceRecord {
    SourceRecord {
        relative_path: e.relative_path,
        kind: kind_from_core(e.kind),
        status: status_from_core(e.status),
        detail: detail_from_core(e.detail),
        capabilities: caps_from_core(e),
    }
}

pub open spec fn records_of(es: Seq<CompareEntry>) -> Seq<SourceRecord> {
    es.map_values(|e: CompareEntry| record_of(e))
}

fn record_from_entry(e: &CompareEntry) -> (r: SourceRecord)
    ensures
        r == record_of(*e),
{
    SourceRecord {
        relative_path: e.relative_path.clone(),
        kind: compare_kind_from_core(e.kind),
        status: compare_status_from_core(e.status),
        detail: compare_detail_from_core(&e.detail),
        capabilities: compare_capabilities_from_core(e),
    }
}

pub fn clone_detail(d: &CompareFoundationDetail) -> (r: CompareFoundationDetail)
    ensures
        r == *d,
{
    match d {
        CompareFoundationDetail::NoDetail => CompareFoundationDetail::NoDetail,
        CompareFoundationDetail::Message { message } => CompareFoundationDetail::Message {
            message: message.clone(),
        },
        CompareFoundationDetail::TypeMismatch { left, right } => CompareFoundationDetail::TypeMismatch {
            left: *left,
            right: *right,
        },
        CompareFoundationDetail::FileComparison { left_size, right_size, content_checked } =>
            CompareFoundationDetail::FileComparison {
                left_size: *left_size,
                right_size: *right_size,
                content_checked: *content_checked,
            },
        CompareFoundationDetail::ContentComparisonDeferred =>
            CompareFoundationDetail::ContentComparisonDeferred,
        CompareFoundationDetail::TextDetailDeferred {
            reason,
            left_size,
            right_size,
            max_text_file_size_bytes,
            content_checked,
        } => CompareFoundationDetail::TextDetailDeferred {
            reason: *reason,
            left_size: *left_size,
            right_size: *right_size,
            max_text_file_size_bytes: *max_text_file_size_bytes,
            content_checked: *content_checked,
        },
        CompareFoundationDetail::TextDiffSummary {
            hunk_count,
            added_lines,
            removed_lines,
            context_lines,
        } => CompareFoundationDetail::TextDiffSummary {
            hunk_count: *hunk_count,
            added_lines: *added_lines,
            removed_lines: *removed_lines,
            context_lines: *context_lines,
        },
    }
}

pub fn clone_caps(c: &CompareEntryCapabilities) -> (r: CompareEntryCapabilities)
    ensures
        r == *c,
{
    let diff = match &c.diff {
        CompareDiffAvailability::Available => CompareDiffAvailability::Available,
        CompareDiffAvailability::Unavailable(reason) => CompareDiffAvailability::Unavailable(
            clone_diff_reason(reason),
        ),
    };
    let analysis = match &c.analysis {
        CompareAnalysisAvailability::Available => CompareAnalysisAvailability::Available,
        CompareAnalysisAvailability::Unavailable(reason) => CompareAnalysisAvailability::Unavailable(
            match reason {
                CompareAnalysisUnavailableReason::DiffUnavailable(d) =>
                    CompareAnalysisUnavailableReason::DiffUnavailable(clone_diff_reason(d)),
                CompareAnalysisUnavailableReason::RequiresChangedFile =>
                    CompareAnalysisUnavailableReason::RequiresChangedFile,
                CompareAnalysisUnavailableReason::Custom(m) =>
                    CompareAnalysisUnavailableReason::Custom(m.clone()),
            },
        ),
    };
    CompareEntryCapabilities { diff, analysis }
}

/// Fields that the last entry naming a node gives it.
pub open spec fn entry_fields(n: CompareFoundationNode, e: SourceRecord, t: int) -> bool {
    &&& n.source_index == Some(t as usize)
    &&& n.kind == e.kind
    &&& n.base_status == e.status
    &&& n.side_presence == presence_of(e.status)
    &&& n.detail == e.detail
    &&& n.capabilities == e.capabilities
}

/// Fields of a directory that no entry names.
pub open spec fn directory_fields(n: CompareFoundationNode) -> bool {
    &&& n.source_index is None
    &&& n.kind == CompareNodeKind::Directory
    &&& n.detail == CompareFoundationDetail::NoDetail
    &&& n.capabilities == default_caps(CompareNodeKind::Directory)
}

/// Normalized components of an entry's path.
pub open spec fn entry_comps(e: SourceRecord) -> Seq<Seq<char>> {
    paths::components(paths::normalize_path(e.relative_path@))
}

/// Key of the node that the first `k` components of entry `i` name.
pub open spec fn entry_prefix(es: Seq<SourceRecord>, i: int, k: int) -> Seq<char> {
    paths::prefix_key(entry_comps(es[i]), k)
}

/// Some prefix of one of the first `n` entries names `key`.
pub open spec fn covered(es: Seq<SourceRecord>, n: int, key: Seq<char>) -> bool {
    exists|i: int, k: int|
        0 <= i < n && 1 <= k <= entry_comps(es[i]).len() && #[trigger] entry_prefix(es, i, k)
            == key
}

/// The last of the first `n` entries whose whole path names `key`.
pub open spec fn last_entry_at(es: Seq<SourceRecord>, n: int, key: Seq<char>) -> Option<int>
    decreases n,
{
    if n <= 0 {
        None
    } else if entry_comps(es[n - 1]).len() > 0 && entry_prefix(es, n - 1, entry_comps(
        es[n - 1],
    ).len() as int) == key {
        Some(n - 1)
    } else {
        last_entry_at(es, n - 1, key)
    }
}

impl CompareFoundation {
    pub closed spec fn node_seq(self) -> Seq<CompareFoundationNode> {
        self.nodes@
    }

    pub closed spec fn source_paths(self) -> Seq<Seq<char>> {
        self.ordered_source_paths@.map_values(|s: String| s@)
    }

    pub open spec fn key_at(self, i: int) -> Seq<char> {
        self.node_seq()[i].relative_path@
    }

    pub open spec fn has_key(self, key: Seq<char>) -> bool {
        exists|i: int| 0 <= i < self.node_seq().len() && #[trigger] self.key_at(i) == key
    }

    pub open spec fn index_of(self, key: Seq<char>) -> int {
        choose|i: int| 0 <= i < self.node_seq().len() && #[trigger] self.key_at(i) == key
    }

    pub open spec fn node_of(self, key: Seq<char>) -> CompareFoundationNode {
        self.node_seq()[self.index_of(key)]
    }

    pub open spec fn lookup(self, key: Seq<char>) -> Option<CompareFoundationNode> {
        if self.has_key(key) {
            Some(self.node_of(key))
        } else {
            None
        }
    }

    pub open spec fn child_statuses(self, n: CompareFoundationNode) -> Seq<CompareBaseStatus> {
        child_keys(n).map_values(|c: Seq<char>| self.node_of(c).base_status)
    }

    pub open spec fn child_presences(self, n: CompareFoundationNode) -> Seq<CompareSidePresence> {
        child_keys(n).map_values(|c: Seq<char>| self.node_of(c).side_presence)
    }

    /// The children of `n` are exactly the nodes whose parent key is its key, sorted.
    pub open spec fn children_ok(self, n: CompareFoundationNode) -> bool {
        let cs = child_keys(n);
        &&& forall|m: int|
            0 <= m < cs.len() ==> self.has_key(#[trigger] cs[m]) && cs[m].len() > 0
                && paths::key_parent(cs[m]) == n.relative_path@
        &&& sorted_strict(cs)
        &&& forall|i: int|
            1 <= i < self.node_seq().len() && paths::key_parent(#[trigger] self.key_at(i))
                == n.relative_path@ ==> cs.contains(self.key_at(i))
    }

    /// A node that no entry describes takes its status and presence from its children.
    pub open spec fn aggregated_ok(self, n: CompareFoundationNode) -> bool {
        n.source_index is None ==> n.base_status == agg_status(self.child_statuses(n))
            && n.side_presence == agg_presence(self.child_presences(n))
    }

    #[verifier::type_invariant]
    pub closed spec fn wf(self) -> bool {
        let ns = self.node_seq();
        &&& ns.len() >= 1
        &&& root_shaped(ns[0])
        &&& forall|i: int, j: int| 0 <= i < j < ns.len() ==> self.key_at(i) != self.key_at(j)
        &&& forall|i: int|
            1 <= i < ns.len() ==> node_shaped(#[trigger] ns[i]) && self.has_key(
                paths::key_parent(ns[i].relative_path@),
            )
        &&& forall|i: int| 0 <= i < ns.len() ==> self.children_ok(#[trigger] ns[i])
        &&& forall|i: int| 0 <= i < ns.len() ==> self.aggregated_ok(#[trigger] ns[i])
    }
}

/// `a` holds what `b` holds, field for field; the child paths as a sequence.
pub open spec fn node_copy(a: CompareFoundationNode, b: CompareFoundationNode) -> bool {
    &&& a.relative_path == b.relative_path
    &&& a.display_name == b.display_name
    &&& a.parent_relative_path == b.parent_relative_path
    &&& a.kind == b.kind
    &&& a.path_depth == b.path_depth
    &&& a.source_index == b.source_index
    &&& a.side_presence == b.side_presence
    &&& a.base_status == b.base_status
    &&& a.detail == b.detail
    &&& a.capabilities == b.capabilities
    &&& a.child_relative_paths@ == b.child_relative_paths@
}

fn clone_opt_string(o: &Option<String>) -> (r: Option<String>)
    ensures
        r == *o,
{
    match o {
        Some(v) => Some(v.clone()),
        None => None,
    }
}

fn clone_strings(v: &Vec<String>) -> (r: Vec<String>)
    ensures
        r@ == v@,
{
    let mut r: Vec<String> = Vec::new();
    for i in 0..v.len()
        invariant
            r@ == v@.subrange(0, i as int),
    {
        r.push(v[i].clone());
        proof {
            assert(r@ =~= v@.subrange(0, i + 1));
        }
    }
    proof {
        assert(r@ =~= v@);
    }
    r
}

/// A copy of a node, field for field.
pub fn clone_node(n: &CompareFoundationNode) -> (r: CompareFoundationNode)
    ensures
        node_copy(r, *n),
{
    CompareFoundationNode {
        relative_path: n.relative_path.clone(),
        display_name: n.display_name.clone(),
        parent_relative_path: clone_opt_string(&n.parent_relative_path),
        kind: n.kind,
        path_depth: n.path_depth,
        source_index: n.source_index,
        side_presence: n.side_presence,
        base_status: n.base_status,
        detail: clone_detail(&n.detail),
        capabilities: clone_caps(&n.capabilities),
        child_relative_paths: clone_strings(&n.child_relative_paths),
    }
}

/// A foundation whose nodes are copies of a well-formed foundation's nodes,
/// in the same order, is well-formed.
proof fn lemma_copy_wf(a: CompareFoundation, b: CompareFoundation)
    requires
        a.wf(),
        b.node_seq().len() == a.node_seq().len(),
        forall|i: int|
            0 <= i < a.node_seq().len() ==> node_copy(#[trigger] b.node_seq()[i], a.node_seq()[i]),
    ensures
        b.wf(),
{
    let an = a.node_seq();
    let bn = b.node_seq();
    assert forall|i: int| 0 <= i < an.len() implies #[trigger] b.key_at(i) == a.key_at(i) by {
        assert(node_copy(bn[i], an[i]));
    }
    assert forall|key: Seq<char>| #[trigger] b.has_key(key) == a.has_key(key) by {
        if a.has_key(key) {
            let i = choose|i: int| 0 <= i < an.len() && #[trigger] a.key_at(i) == key;
            assert(b.key_at(i) == key);
        }
        if b.has_key(key) {
            let i = choose|i: int| 0 <= i < bn.len() && #[trigger] b.key_at(i) == key;
            assert(a.key_at(i) == key);
        }
    }
    assert forall|key: Seq<char>| #[trigger] a.has_key(key) implies node_copy(
        b.node_of(key),
        a.node_of(key),
    ) by {
        let ia = a.index_of(key);
        let ib = b.index_of(key);
        assert(b.has_key(key));
        assert(a.key_at(ia) == key);
        assert(b.key_at(ib) == key);
        assert(a.key_at(ib) == key);
        assert(ia == ib);
        assert(node_copy(bn[ib], an[ib]));
    }
    assert forall|i: int| 0 <= i < an.len() implies child_keys(#[trigger] bn[i]) == child_keys(
        an[i],
    ) by {
        assert(node_copy(bn[i], an[i]));
        assert(child_keys(bn[i]) =~= child_keys(an[i]));
    }
    assert(root_shaped(bn[0])) by {
        assert(node_copy(bn[0], an[0]));
    }
    assert forall|i: int, j: int| 0 <= i < j < bn.len() implies b.key_at(i) != b.key_at(j) by {
        assert(b.key_at(i) == a.key_at(i));
        assert(b.key_at(j) == a.key_at(j));
    }
    assert forall|i: int|
        1 <= i < bn.len() implies node_shaped(#[trigger] bn[i]) && b.has_key(
            paths::key_parent(bn[i].relative_path@),
        ) by {
        assert(node_copy(bn[i], an[i]));
        assert(node_shaped(an[i]));
        assert(a.has_key(paths::key_parent(an[i].relative_path@)));
    }
    assert forall|i: int| 0 <= i < bn.len() implies b.children_ok(#[trigger] bn[i]) by {
        assert(a.children_ok(an[i]));
        assert(node_copy(bn[i], an[i]));
        let cs = child_keys(bn[i]);
        assert(cs == child_keys(an[i]));
        assert forall|m: int| 0 <= m < cs.len() implies b.has_key(#[trigger] cs[m]) by {
            assert(a.has_key(cs[m]));
        }
        assert forall|j: int|
            1 <= j < bn.len() && paths::key_parent(#[trigger] b.key_at(j))
                == bn[i].relative_path@ implies cs.contains(b.key_at(j)) by {
            assert(b.key_at(j) == a.key_at(j));
        }
    }
    assert forall|i: int| 0 <= i < bn.len() implies b.aggregated_ok(#[trigger] bn[i]) by {
        assert(a.aggregated_ok(an[i]));
        assert(a.children_ok(an[i]));
        assert(node_copy(bn[i], an[i]));
        let cs = child_keys(an[i]);
        assert(child_keys(bn[i]) == cs);
        assert forall|m: int| 0 <= m < cs.len() implies node_copy(
            b.node_of(#[trigger] cs[m]),
            a.node_of(cs[m]),
        ) by {
            assert(a.has_key(cs[m]));
        }
        assert(b.child_statuses(bn[i]) =~= a.child_statuses(an[i]));
        assert(b.child_presences(bn[i]) =~= a.child_presences(an[i]));
    }
}

impl Clone for CompareFoundation {
    /// A copy of the foundation: the same nodes in the same order, and the same source paths.
    fn clone(&self) -> (r: Self)
        ensures
            r.node_seq().len() == self.node_seq().len(),
            forall|i: int|
                0 <= i < self.node_seq().len() ==> node_copy(
                    #[trigger] r.node_seq()[i],
                    self.node_seq()[i],
                ),
            r.source_paths() == self.source_paths(),
    {
        proof {
            use_type_invariant(self);
        }
        let mut nodes: Vec<CompareFoundationNode> = Vec::new();
        for i in 0..self.nodes.len()
            invariant
                nodes@.len() == i,
                forall|q: int| 0 <= q < i ==> node_copy(#[trigger] nodes@[q], self.nodes@[q]),
        {
            nodes.push(clone_node(&self.nodes[i]));
        }
        let ordered = clone_strings(&self.ordered_source_paths);
        let ghost g = CompareFoundation { nodes: nodes, ordered_source_paths: ordered };
        proof {
            lemma_copy_wf(*self, g);
            assert(g.source_paths() =~= self.source_paths());
        }
        CompareFoundation { nodes, ordered_source_paths: ordered }
    }
}

impl CompareFoundation {
    /// The foundation with the root alone: no source entries, the empty key
    /// its only key, and a root of status `Equal`, present on neither side,
    /// without children.
    pub open spec fn is_empty_foundation(self) -> bool {
        let root = self.node_of(Seq::<char>::empty());
        &&& self.source_paths().len() == 0
        &&& self.node_seq().len() == 1
        &&& forall|key: Seq<char>| #[trigger] self.has_key(key) <==> key.len() == 0
        &&& root_shaped(root)
        &&& root.base_status == CompareBaseStatus::Equal
        &&& root.side_presence == (CompareSidePresence { left: false, right: false })
        &&& root.child_relative_paths@.len() == 0
    }
}

fn root_node() -> (r: CompareFoundationNode)
    ensures
        root_shaped(r),
        r.child_relative_paths@.len() == 0,
        r.base_status == CompareBaseStatus::Equal,
        r.side_presence == (CompareSidePresence { left: false, right: false }),
{
    CompareFoundationNode {
        relative_path: String::new(),
        display_name: text::to_string(COMPARE_ROOT_DISPLAY_NAME),
        parent_relative_path: None,
        kind: CompareNodeKind::Root,
        path_depth: 0,
        source_index: None,
        side_presence: CompareSidePresence { left: false, right: false },
        base_status: CompareBaseStatus::Equal,
        detail: CompareFoundationDetail::NoDetail,
        capabilities: CompareEntryCapabilities::default_for_kind(CompareNodeKind::Root),
        child_relative_paths: Vec::new(),
    }
}

fn slash_count_exec(v: &[char]) -> (r: usize)
    ensures
        r == paths::slash_count(v@),
{
    let mut c: usize = 0;
    for i in 0..v.len()
        invariant
            c == paths::slash_count(v@.take(i as int)),
            c <= i,
    {
        assert(v@.take(i + 1).drop_last() =~= v@.take(i as int));
        if v[i] == '/' {
            c = c + 1;
        }
    }
    assert(v@.take(v@.len() as int) =~= v@);
    c
}

/// A fresh directory node for a key made of valid pieces.
fn new_dir_node(key: &Vec<char>, Ghost(c): Ghost<Seq<Seq<char>>>, Ghost(k): Ghost<int>) -> (r:
    CompareFoundationNode)
    requires
        paths::valid_pieces(c),
        1 <= k <= c.len(),
        key@ == paths::prefix_key(c, k),
    ensures
        node_shaped(r),
        r.relative_path@ == key@,
        directory_fields(r),
        r.base_status == CompareBaseStatus::Equal,
        r.side_presence == (CompareSidePresence { left: false, right: false }),
        r.child_relative_paths@.len() == 0,
{
    proof {
        paths::lemma_prefix_key(c, k);
        paths::lemma_prefix_key_normal(c, k);
        if k >= 2 {
            paths::lemma_prefix_key(c, k - 1);
        } else {
            assert(paths::prefix_key(c, 0) =~= Seq::<char>::empty());
        }
    }
    let (name, parent) = match paths::last_slash_exec(key) {
        Some(i) => {
            proof {
                paths::lemma_last_slash_bound(key@);
            }
            assert(i < key.len());
            let n = text::slice_chars(key, i + 1, key.len());
            let p = text::slice_chars(key, 0, i);
            (string_from_chars(&n), Some(string_from_chars(&p)))
        },
        None => (string_from_chars(key), None),
    };
    let slashes = slash_count_exec(key);
    let level = if slashes < 65535 { slashes + 1 } else { 65535 };
    CompareFoundationNode {
        relative_path: string_from_chars(key),
        display_name: name,
        parent_relative_path: parent,
        kind: CompareNodeKind::Directory,
        path_depth: level as u16,
        source_index: None,
        side_presence: CompareSidePresence { left: false, right: false },
        base_status: CompareBaseStatus::Equal,
        detail: CompareFoundationDetail::NoDetail,
        capabilities: CompareEntryCapabilities::default_for_kind(CompareNodeKind::Directory),
        child_relative_paths: Vec::new(),
    }
}

fn find_key(keys: &Vec<Vec<char>>, key: &[char]) -> (r: Option<usize>)
    ensures
        r matches Some(j) ==> j < keys@.len() && keys@[j as int]@ == key@,
        r is None ==> forall|j: int| 0 <= j < keys@.len() ==> keys@[j]@ != key@,
{
    for j in 0..keys.len()
        invariant
            forall|m: int| 0 <= m < j ==> keys@[m]@ != key@,
    {
        if text::chars_eq(&keys[j], key) {
            return Some(j);
        }
    }
    None
}

pub open spec fn keys_match(nodes: Seq<CompareFoundationNode>, keys: Seq<Vec<char>>) -> bool {
    &&& nodes.len() == keys.len()
    &&& forall|j: int| 0 <= j < keys.len() ==> (#[trigger] keys[j])@ == nodes[j].relative_path@
}

/// Shape of the node list while it is being discovered: a root, unique keys,
/// shaped non-root nodes whose parents are present, no children yet.
#[verifier::opaque]
pub open spec fn discovery_base(nodes: Seq<CompareFoundationNode>, keys: Seq<Vec<char>>) -> bool {
    &&& keys_match(nodes, keys)
    &&& nodes.len() >= 1
    &&& root_shaped(nodes[0])
    &&& nodes[0].base_status == CompareBaseStatus::Equal
    &&& nodes[0].side_presence == (CompareSidePresence { left: false, right: false })
    &&& forall|j: int| 0 <= j < nodes.len() ==> (#[trigger] nodes[j]).child_relative_paths@.len() == 0
    &&& forall|a: int, b: int| 0 <= a < b < keys.len() ==> keys[a]@ != keys[b]@
    &&& forall|j: int|
        1 <= j < nodes.len() ==> node_shaped(#[trigger] nodes[j]) && exists|p: int|
            0 <= p < keys.len() && keys[p]@ == paths::key_parent(keys[j]@)
}

/// Entry-derived fields after the first `n` entries.
#[verifier::opaque]
pub open spec fn discovery_fields(
    nodes: Seq<CompareFoundationNode>,
    keys: Seq<Vec<char>>,
    es: Seq<SourceRecord>,
    n: int,
) -> bool {
    forall|j: int|
        1 <= j < nodes.len() ==> match last_entry_at(es, n, (#[trigger] keys[j])@) {
            Some(t) => entry_fields(nodes[j], es[t], t),
            None => directory_fields(nodes[j]) && nodes[j].base_status == CompareBaseStatus::Equal
                && nodes[j].side_presence == (CompareSidePresence { left: false, right: false }),
        }
}

/// Every non-root key is a prefix of the first `n` entries or of the first `kk`
/// components of entry `n`, and each of those prefixes has a node.
#[verifier::opaque]
pub open spec fn discovery_domain(
    keys: Seq<Vec<char>>,
    es: Seq<SourceRecord>,
    n: int,
    kk: int,
) -> bool {
    &&& forall|j: int|
        1 <= j < keys.len() ==> covered(es, n, (#[trigger] keys[j])@) || exists|k: int|
            1 <= k <= kk && entry_prefix(es, n, k) == keys[j]@
    &&& forall|i: int, k: int|
        0 <= i < n && 1 <= k <= entry_comps(es[i]).len() ==> #[trigger] prefix_present(keys, es, i, k)
    &&& forall|k: int| 1 <= k <= kk ==> #[trigger] prefix_present(keys, es, n, k)
}

/// Some key is prefix `k` of entry `i`.
pub open spec fn prefix_present(keys: Seq<Vec<char>>, es: Seq<SourceRecord>, i: int, k: int) -> bool {
    exists|j: int| 0 <= j < keys.len() && keys[j]@ == entry_prefix(es, i, k)
}

proof fn lemma_last_entry_covered(es: Seq<SourceRecord>, n: int, key: Seq<char>)
    requires
        0 <= n <= es.len(),
    ensures
        last_entry_at(es, n, key) matches Some(t) ==> 0 <= t < n && covered(es, n, key)
            && entry_comps(es[t]).len() > 0 && entry_prefix(es, t, entry_comps(es[t]).len() as int)
            == key,
    decreases n,
{
    if n > 0 {
        lemma_last_entry_covered(es, n - 1, key);
        if entry_comps(es[n - 1]).len() > 0 && entry_prefix(
            es,
            n - 1,
            entry_comps(es[n - 1]).len() as int,
        ) == key {
            let k = entry_comps(es[n - 1]).len() as int;
            assert(covered(es, n, key)) by {
                assert(entry_prefix(es, n - 1, k) == key);
            }
        } else if last_entry_at(es, n - 1, key) is Some {
            let w = choose|i: int, k: int|
                0 <= i < n - 1 && 1 <= k <= entry_comps(es[i]).len() && #[trigger] entry_prefix(
                    es,
                    i,
                    k,
                ) == key;
            assert(entry_prefix(es, w.0, w.1) == key);
        }
    }
}

proof fn lemma_covered_mono(es: Seq<SourceRecord>, n: int, key: Seq<char>)
    requires
        covered(es, n, key),
    ensures
        covered(es, n + 1, key),
{
    let w = choose|i: int, k: int|
        0 <= i < n && 1 <= k <= entry_comps(es[i]).len() && #[trigger] entry_prefix(es, i, k)
            == key;
    assert(entry_prefix(es, w.0, w.1) == key);
}

proof fn lemma_entry_comps_valid(e: SourceRecord)
    ensures
        paths::valid_pieces(entry_comps(e)),
{
    paths::lemma_normalized_has_no_backslash(e.relative_path@);
    paths::lemma_components_valid(paths::normalize_path(e.relative_path@));
}

/// Finds or adds the node of prefix `k` of entry `i`.
#[verifier::rlimit(60)]
fn ensure_node(
    nodes: &mut Vec<CompareFoundationNode>,
    keys: &mut Vec<Vec<char>>,
    key: &Vec<char>,
    Ghost(es): Ghost<Seq<SourceRecord>>,
    Ghost(i): Ghost<int>,
    Ghost(c): Ghost<Seq<Seq<char>>>,
    Ghost(k): Ghost<int>,
    Ghost(parent_idx): Ghost<int>,
) -> (idx: usize)
    requires
        0 <= i < es.len(),
        c == entry_comps(es[i]),
        paths::valid_pieces(c),
        1 <= k <= c.len(),
        key@ == entry_prefix(es, i, k),
        0 <= parent_idx < old(keys)@.len(),
        old(keys)@[parent_idx]@ == paths::key_parent(key@),
        discovery_base(old(nodes)@, old(keys)@),
        discovery_fields(old(nodes)@, old(keys)@, es, i),
        discovery_domain(old(keys)@, es, i, k - 1),
    ensures
        discovery_base(final(nodes)@, final(keys)@),
        discovery_fields(final(nodes)@, final(keys)@, es, i),
        discovery_domain(final(keys)@, es, i, k),
        idx < final(keys)@.len(),
        final(keys)@[idx as int]@ == key@,
        final(keys)@.len() >= old(keys)@.len(),
        forall|j: int| 0 <= j < old(keys)@.len() ==> final(keys)@[j] == old(keys)@[j],
{
    proof {
        reveal(discovery_base);
        reveal(discovery_fields);
        reveal(discovery_domain);
    }
    let found = find_key(keys, key);
    match found {
        Some(j) => {
            proof {
                assert forall|kk: int| 1 <= kk <= k implies #[trigger] prefix_present(keys@, es, i, kk) by {
                    if kk == k {
                        assert(keys@[j as int]@ == entry_prefix(es, i, kk));
                    }
                }
                assert forall|m: int| 1 <= m < keys@.len() implies covered(
                    es,
                    i,
                    (#[trigger] keys@[m])@,
                ) || exists|kk: int| 1 <= kk <= k && entry_prefix(es, i, kk) == keys@[m]@ by {
                    if !covered(es, i, keys@[m]@) {
                        let kk = choose|kk: int|
                            1 <= kk <= k - 1 && entry_prefix(es, i, kk) == keys@[m]@;
                        assert(1 <= kk <= k && entry_prefix(es, i, kk) == keys@[m]@);
                    }
                }
            }
            j
        },
        None => {
            proof {
                lemma_last_entry_covered(es, i, key@);
                if covered(es, i, key@) {
                    let w = choose|a: int, b: int|
                        0 <= a < i && 1 <= b <= entry_comps(es[a]).len()
                            && #[trigger] entry_prefix(es, a, b) == key@;
                    assert(entry_prefix(es, w.0, w.1) == key@);
                    assert(prefix_present(keys@, es, w.0, w.1));
                }
                assert(last_entry_at(es, i, key@) is None);
            }
            let node = new_dir_node(key, Ghost(c), Ghost(k));
            let ghost pk = keys@;
            let ghost pn = nodes@;
            nodes.push(node);
            keys.push(key.clone());
            proof {
                let last = keys@.len() - 1;
                assert(keys@[last]@ == key@);
                assert forall|j: int|
                    1 <= j < nodes@.len() implies node_shaped(#[trigger] nodes@[j]) && exists|p: int|
                    0 <= p < keys@.len() && keys@[p]@ == paths::key_parent(keys@[j]@) by {
                    if j < last {
                        assert(nodes@[j] == pn[j]);
                        let p = choose|p: int| 0 <= p < pk.len() && pk[p]@ == paths::key_parent(pk[j]@);
                        assert(keys@[p] == pk[p]);
                    } else {
                        assert(keys@[parent_idx]@ == paths::key_parent(keys@[j]@));
                    }
                }
                assert forall|j: int| 0 <= j < nodes@.len() implies (#[trigger] nodes@[j]).child_relative_paths@.len() == 0 by {
                    if j < last {
                        assert(nodes@[j] == pn[j]);
                    }
                }
                assert forall|a: int, b: int| 0 <= a < b < keys@.len() implies keys@[a]@ != keys@[b]@ by {
                    if b < last {
                        assert(keys@[a] == pk[a] && keys@[b] == pk[b]);
                    } else {
                        assert(keys@[a] == pk[a]);
                    }
                }
                assert forall|j: int|
                    1 <= j < nodes@.len() implies match last_entry_at(es, i, (#[trigger] keys@[j])@) {
                    Some(t) => entry_fields(nodes@[j], es[t], t),
                    None => directory_fields(nodes@[j]) && nodes@[j].base_status == CompareBaseStatus::Equal
                        && nodes@[j].side_presence == (CompareSidePresence { left: false, right: false }),
                } by {
                    if j < last {
                        assert(nodes@[j] == pn[j] && keys@[j] == pk[j]);
                    }
                }
                assert forall|m: int| 1 <= m < keys@.len() implies covered(
                    es,
                    i,
                    (#[trigger] keys@[m])@,
                ) || exists|kk: int| 1 <= kk <= k && entry_prefix(es, i, kk) == keys@[m]@ by {
                    if m < last {
                        assert(keys@[m] == pk[m]);
                        if !covered(es, i, keys@[m]@) {
                            let kk = choose|kk: int|
                                1 <= kk <= k - 1 && entry_prefix(es, i, kk) == keys@[m]@;
                            assert(1 <= kk <= k && entry_prefix(es, i, kk) == keys@[m]@);
                        }
                    } else {
                        assert(entry_prefix(es, i, k) == keys@[m]@);
                    }
                }
                assert forall|a: int, b: int|
                    0 <= a < i && 1 <= b <= entry_comps(es[a]).len() implies #[trigger] prefix_present(keys@, es, a, b) by {
                    assert(prefix_present(pk, es, a, b));
                    let j = choose|j: int| 0 <= j < pk.len() && pk[j]@ == entry_prefix(es, a, b);
                    assert(keys@[j] == pk[j]);
                }
                assert forall|kk: int| 1 <= kk <= k implies #[trigger] prefix_present(keys@, es, i, kk) by {
                    if kk < k {
                        assert(prefix_present(pk, es, i, kk));
                        let j = choose|j: int| 0 <= j < pk.len() && pk[j]@ == entry_prefix(es, i, kk);
                        assert(keys@[j] == pk[j]);
                    } else {
                        assert(keys@[last]@ == entry_prefix(es, i, kk));
                    }
                }
            }
            nodes.len() - 1
        },
    }
}

/// Adds the nodes of all prefixes of entry `i`; returns the node of its whole path.
fn insert_entry_prefixes(
    nodes: &mut Vec<CompareFoundationNode>,
    keys: &mut Vec<Vec<char>>,
    comps: &Vec<Vec<char>>,
    Ghost(es): Ghost<Seq<SourceRecord>>,
    Ghost(i): Ghost<int>,
) -> (idx: usize)
    requires
        0 <= i < es.len(),
        comps@.len() == entry_comps(es[i]).len(),
        forall|m: int| 0 <= m < comps@.len() ==> (#[trigger] comps@[m])@ == entry_comps(es[i])[m],
        discovery_base(old(nodes)@, old(keys)@),
        discovery_fields(old(nodes)@, old(keys)@, es, i),
        discovery_domain(old(keys)@, es, i, 0),
    ensures
        discovery_base(final(nodes)@, final(keys)@),
        discovery_fields(final(nodes)@, final(keys)@, es, i),
        discovery_domain(final(keys)@, es, i, comps@.len() as int),
        idx < final(keys)@.len(),
        comps@.len() > 0 ==> final(keys)@[idx as int]@ == entry_prefix(
            es,
            i,
            comps@.len() as int,
        ),
{
    let ghost c = entry_comps(es[i]);
    proof {
        lemma_entry_comps_valid(es[i]);
        assert(paths::prefix_key(c, 0) =~= Seq::<char>::empty());
        assert(keys@.len() >= 1 && keys@[0]@ == Seq::<char>::empty()) by {
            reveal(discovery_base);
        }
    }
    let mut key: Vec<char> = Vec::new();
    let mut parent_idx: usize = 0;
    for k in 0..comps.len()
        invariant
            0 <= i < es.len(),
            c == entry_comps(es[i]),
            paths::valid_pieces(c),
            comps@.len() == c.len(),
            forall|m: int| 0 <= m < comps@.len() ==> (#[trigger] comps@[m])@ == c[m],
            key@ == paths::prefix_key(c, k as int),
            parent_idx < keys@.len(),
            keys@[parent_idx as int]@ == key@,
            discovery_base(nodes@, keys@),
            discovery_fields(nodes@, keys@, es, i),
            discovery_domain(keys@, es, i, k as int),
    {
        let ghost old_key = key@;
        if k > 0 {
            key.push('/');
        }
        text::push_all(&mut key, &comps[k]);
        proof {
            assert(c.take(k + 1).drop_last() =~= c.take(k as int));
            if k == 0 {
                assert(key@ =~= c[0]);
                assert(paths::prefix_key(c, 1) == c.take(1)[0]);
            } else {
                assert(key@ =~= old_key + seq!['/'] + c[k as int]);
            }
            paths::lemma_prefix_key(c, k + 1);
        }
        parent_idx = ensure_node(
            nodes,
            keys,
            &key,
            Ghost(es),
            Ghost(i),
            Ghost(c),
            Ghost(k + 1),
            Ghost(parent_idx as int),
        );
    }
    parent_idx
}

/// Records entry `i` on the node of its whole path.
fn apply_entry(
    nodes: &mut Vec<CompareFoundationNode>,
    keys: &Vec<Vec<char>>,
    entries: &[SourceRecord],
    i: usize,
    idx: usize,
)
    requires
        i < entries@.len(),
        entries@[i as int].kind != CompareNodeKind::Root,
        entry_comps(entries@[i as int]).len() > 0,
        idx < keys@.len(),
        keys@[idx as int]@ == entry_prefix(
            entries@,
            i as int,
            entry_comps(entries@[i as int]).len() as int,
        ),
        discovery_base(old(nodes)@, keys@),
        discovery_fields(old(nodes)@, keys@, entries@, i as int),
        discovery_domain(keys@, entries@, i as int, entry_comps(entries@[i as int]).len() as int),
    ensures
        discovery_base(final(nodes)@, keys@),
        discovery_fields(final(nodes)@, keys@, entries@, i + 1),
        discovery_domain(keys@, entries@, i + 1, 0),
{
    let ghost es = entries@;
    let ghost pn = nodes@;
    proof {
        reveal(discovery_base);
    }
    let ghost full = entry_prefix(es, i as int, entry_comps(es[i as int]).len() as int);
    proof {
        assert(idx != 0) by {
            lemma_entry_comps_valid(es[i as int]);
            paths::lemma_prefix_key(
                entry_comps(es[i as int]),
                entry_comps(es[i as int]).len() as int,
            );
        }
    }
    let status = entries[i].status;
    let presence = status.side_presence();
    let detail = clone_detail(&entries[i].detail);
    let caps = clone_caps(&entries[i].capabilities);
    let kind = entries[i].kind;
    nodes[idx].kind = kind;
    nodes[idx].source_index = Some(i);
    nodes[idx].side_presence = presence;
    nodes[idx].base_status = status;
    nodes[idx].detail = detail;
    nodes[idx].capabilities = caps;
    proof {
        lemma_apply_entry(pn, nodes@, keys@, es, i as int, idx as int);
    }
}

proof fn lemma_apply_entry(
    pn: Seq<CompareFoundationNode>,
    nodes: Seq<CompareFoundationNode>,
    keys: Seq<Vec<char>>,
    es: Seq<SourceRecord>,
    i: int,
    idx: int,
)
    requires
        0 <= i < es.len(),
        entry_comps(es[i]).len() > 0,
        1 <= idx < keys.len(),
        keys[idx]@ == entry_prefix(es, i, entry_comps(es[i]).len() as int),
        discovery_base(pn, keys),
        discovery_fields(pn, keys, es, i),
        discovery_domain(keys, es, i, entry_comps(es[i]).len() as int),
        nodes.len() == pn.len(),
        forall|j: int| 0 <= j < nodes.len() && j != idx ==> nodes[j] == pn[j],
        entry_fields(nodes[idx], es[i], i),
        nodes[idx].relative_path == pn[idx].relative_path,
        nodes[idx].display_name == pn[idx].display_name,
        nodes[idx].parent_relative_path == pn[idx].parent_relative_path,
        nodes[idx].path_depth == pn[idx].path_depth,
        nodes[idx].child_relative_paths == pn[idx].child_relative_paths,
        nodes[idx].kind != CompareNodeKind::Root,
    ensures
        discovery_base(nodes, keys),
        discovery_fields(nodes, keys, es, i + 1),
        discovery_domain(keys, es, i + 1, 0),
{
    reveal(discovery_base);
    reveal(discovery_fields);
    reveal(discovery_domain);
    let full = entry_prefix(es, i, entry_comps(es[i]).len() as int);
    assert(last_entry_at(es, i + 1, full) == Some(i));
    assert forall|j: int| 1 <= j < nodes.len() implies node_shaped(#[trigger] nodes[j])
        && exists|p: int| 0 <= p < keys.len() && keys[p]@ == paths::key_parent(keys[j]@) by {
        assert(node_shaped(pn[j]));
        let p = choose|p: int| 0 <= p < keys.len() && keys[p]@ == paths::key_parent(keys[j]@);
    }
    assert forall|j: int| 0 <= j < nodes.len() implies (#[trigger] nodes[j]).child_relative_paths@.len() == 0 by {
        assert(pn[j].child_relative_paths@.len() == 0);
    }
    assert forall|j: int|
        1 <= j < nodes.len() implies match last_entry_at(es, i + 1, (#[trigger] keys[j])@) {
        Some(t) => entry_fields(nodes[j], es[t], t),
        None => directory_fields(nodes[j]) && nodes[j].base_status == CompareBaseStatus::Equal
            && nodes[j].side_presence == (CompareSidePresence { left: false, right: false }),
    } by {
        if j != idx {
            assert(keys[j]@ != full);
            assert(nodes[j] == pn[j]);
            assert(last_entry_at(es, i + 1, keys[j]@) == last_entry_at(es, i, keys[j]@));
        }
    }
    lemma_domain_advance(keys, es, i);
}

proof fn lemma_prefix_present(
    keys: Seq<Vec<char>>,
    es: Seq<SourceRecord>,
    n: int,
    kk: int,
    a: int,
    b: int,
)
    requires
        discovery_domain(keys, es, n, kk),
        0 <= a < n,
        1 <= b <= entry_comps(es[a]).len(),
    ensures
        prefix_present(keys, es, a, b),
{
    reveal(discovery_domain);
}

proof fn lemma_current_prefix_present(
    keys: Seq<Vec<char>>,
    es: Seq<SourceRecord>,
    n: int,
    kk: int,
    b: int,
)
    requires
        discovery_domain(keys, es, n, kk),
        1 <= b <= kk,
    ensures
        prefix_present(keys, es, n, b),
{
    reveal(discovery_domain);
}

proof fn lemma_key_covered(keys: Seq<Vec<char>>, es: Seq<SourceRecord>, n: int, kk: int, j: int)
    requires
        discovery_domain(keys, es, n, kk),
        1 <= j < keys.len(),
        0 <= n < es.len(),
        kk == entry_comps(es[n]).len(),
    ensures
        covered(es, n + 1, keys[j]@),
{
    reveal(discovery_domain);
    if covered(es, n, keys[j]@) {
        lemma_covered_mono(es, n, keys[j]@);
    } else {
        let k = choose|k: int| 1 <= k <= kk && entry_prefix(es, n, k) == keys[j]@;
        assert(entry_prefix(es, n, k) == keys[j]@);
    }
}

proof fn lemma_domain_advance(keys: Seq<Vec<char>>, es: Seq<SourceRecord>, i: int)
    requires
        0 <= i < es.len(),
        discovery_domain(keys, es, i, entry_comps(es[i]).len() as int),
    ensures
        discovery_domain(keys, es, i + 1, 0),
{
    reveal(discovery_domain);
    let kk = entry_comps(es[i]).len() as int;
    assert forall|j: int| 1 <= j < keys.len() implies covered(es, i + 1, (#[trigger] keys[j])@) by {
        lemma_key_covered(keys, es, i, kk, j);
    }
    assert forall|a: int, b: int|
        0 <= a < i + 1 && 1 <= b <= entry_comps(es[a]).len() implies #[trigger] prefix_present(keys, es, a, b) by {
        if a == i {
            lemma_current_prefix_present(keys, es, i, kk, b);
        } else {
            lemma_prefix_present(keys, es, i, kk, a, b);
        }
    }
}

proof fn lemma_skip_entry(
    nodes: Seq<CompareFoundationNode>,
    keys: Seq<Vec<char>>,
    es: Seq<SourceRecord>,
    i: int,
)
    requires
        0 <= i < es.len(),
        entry_comps(es[i]).len() == 0,
        discovery_base(nodes, keys),
        discovery_fields(nodes, keys, es, i),
        discovery_domain(keys, es, i, 0),
    ensures
        discovery_fields(nodes, keys, es, i + 1),
        discovery_domain(keys, es, i + 1, 0),
{
    lemma_domain_advance(keys, es, i);
    reveal(discovery_base);
    reveal(discovery_fields);
    assert forall|j: int| 1 <= j < nodes.len() implies match last_entry_at(es, i + 1, (#[trigger] keys[j])@) {
        Some(t) => entry_fields(nodes[j], es[t], t),
        None => directory_fields(nodes[j]) && nodes[j].base_status == CompareBaseStatus::Equal
            && nodes[j].side_presence == (CompareSidePresence { left: false, right: false }),
    } by {
        assert(last_entry_at(es, i + 1, keys[j]@) == last_entry_at(es, i, keys[j]@));
    }
}

/// First pass: one node for every prefix of every entry path, with the fields
/// of the last entry that names it.
fn discover_nodes(entries: &[SourceRecord]) -> (r: (
    Vec<CompareFoundationNode>,
    Vec<Vec<char>>,
    Vec<String>,
))
    requires
        forall|i: int| 0 <= i < entries@.len() ==> (#[trigger] entries@[i]).kind != CompareNodeKind::Root,
    ensures
        discovery_base(r.0@, r.1@),
        discovery_fields(r.0@, r.1@, entries@, entries@.len() as int),
        discovery_domain(r.1@, entries@, entries@.len() as int, 0),
        r.2@.len() == entries@.len(),
        forall|i: int|
            0 <= i < entries@.len() ==> (#[trigger] r.2@[i])@ == paths::normalize_path(
                entries@[i].relative_path@,
            ),
{
    let ghost es = entries@;
    let mut nodes: Vec<CompareFoundationNode> = Vec::new();
    let mut keys: Vec<Vec<char>> = Vec::new();
    let mut ordered: Vec<String> = Vec::new();
    nodes.push(root_node());
    keys.push(Vec::new());
    proof {
        assert(keys@[0]@ =~= Seq::<char>::empty());
        reveal(discovery_base);
        reveal(discovery_fields);
        reveal(discovery_domain);
    }
    for i in 0..entries.len()
        invariant
            es == entries@,
            forall|q: int| 0 <= q < es.len() ==> (#[trigger] es[q]).kind != CompareNodeKind::Root,
            discovery_base(nodes@, keys@),
            discovery_fields(nodes@, keys@, es, i as int),
            discovery_domain(keys@, es, i as int, 0),
            ordered@.len() == i,
            forall|m: int|
                0 <= m < i ==> (#[trigger] ordered@[m])@ == paths::normalize_path(
                    es[m].relative_path@,
                ),
    {
        let path = chars_of(entries[i].relative_path.as_str());
        let norm = normalize_chars(&path);
        ordered.push(string_from_chars(&norm));
        let comps = paths::components_chars(&norm);
        let idx = insert_entry_prefixes(&mut nodes, &mut keys, &comps, Ghost(es), Ghost(i as int));
        if comps.len() > 0 {
            apply_entry(&mut nodes, &keys, entries, i, idx);
        } else {
            proof {
                lemma_skip_entry(nodes@, keys@, es, i as int);
            }
        }
    }
    (nodes, keys, ordered)
}

// ---------------------------------------------------------------------------
// Children
// ---------------------------------------------------------------------------

pub open spec fn sorted_by_key(keys: Seq<Vec<char>>, idx: Seq<usize>) -> bool {
    &&& forall|m: int| 0 <= m < idx.len() ==> (#[trigger] idx[m]) < keys.len()
    &&& forall|m: int|
        0 <= m < idx.len() - 1 ==> text::lex_lt(keys[#[trigger] idx[m] as int]@, keys[idx[m + 1] as int]@)
}

fn parent_key_exec(k: &[char]) -> (r: Vec<char>)
    ensures
        r@ == paths::key_parent(k@),
{
    match paths::last_slash_exec(k) {
        Some(i) => {
            proof {
                paths::lemma_last_slash_bound(k@);
            }
            text::slice_chars(k, 0, i)
        },
        None => {
            let r: Vec<char> = Vec::new();
            assert(r@ =~= Seq::<char>::empty());
            r
        },
    }
}

/// Inserts index `x` into a list of node indices kept sorted by key.
fn insert_by_key(list: &mut Vec<usize>, keys: &Vec<Vec<char>>, x: usize)
    requires
        x < keys@.len(),
        sorted_by_key(keys@, old(list)@),
        forall|m: int| 0 <= m < old(list)@.len() ==> keys@[#[trigger] old(list)@[m] as int]@ != keys@[x as int]@,
    ensures
        sorted_by_key(keys@, final(list)@),
        final(list)@.len() == old(list)@.len() + 1,
        forall|m: int| 0 <= m < old(list)@.len() ==> final(list)@.contains(#[trigger] old(list)@[m]),
        final(list)@.contains(x),
        forall|m: int| 0 <= m < final(list)@.len() ==> #[trigger] final(list)@[m] == x || old(list)@.contains(final(list)@[m]),
{
    let mut p: usize = 0;
    while p < list.len() && text::chars_lt(&keys[list[p]], &keys[x])
        invariant
            p <= list@.len(),
            x < keys@.len(),
            sorted_by_key(keys@, list@),
            forall|m: int| 0 <= m < p ==> text::lex_lt(keys@[#[trigger] list@[m] as int]@, keys@[x as int]@),
        decreases list@.len() - p,
    {
        p = p + 1;
    }
    let ghost old_list = list@;
    proof {
        if p < list@.len() {
            assert(keys@[list@[p as int] as int]@ != keys@[x as int]@);
            text::lemma_lex_total(keys@[list@[p as int] as int]@, keys@[x as int]@);
        }
    }
    list.insert(p, x);
    proof {
        assert(list@ == old_list.insert(p as int, x));
        assert forall|m: int| 0 <= m < list@.len() - 1 implies text::lex_lt(
            keys@[#[trigger] list@[m] as int]@,
            keys@[list@[m + 1] as int]@,
        ) by {
            if m < p - 1 {
                assert(list@[m] == old_list[m] && list@[m + 1] == old_list[m + 1]);
            } else if m == p - 1 {
                assert(list@[m] == old_list[m] && list@[m + 1] == x);
            } else if m == p {
                assert(list@[m] == x && list@[m + 1] == old_list[m]);
            } else {
                assert(list@[m] == old_list[m - 1] && list@[m + 1] == old_list[m]);
            }
        }
        assert forall|m: int| 0 <= m < old_list.len() implies list@.contains(#[trigger] old_list[m]) by {
            if m < p {
                assert(list@[m] == old_list[m]);
            } else {
                assert(list@[m + 1] == old_list[m]);
            }
        }
        assert(list@[p as int] == x);
        assert forall|m: int| 0 <= m < list@.len() implies #[trigger] list@[m] == x || old_list.contains(list@[m]) by {
            if m < p {
                assert(list@[m] == old_list[m]);
            } else if m > p {
                assert(list@[m] == old_list[m - 1]);
            }
        }
    }
}

/// Indices of the nodes whose parent key is `target`, sorted by key.
fn collect_children(keys: &Vec<Vec<char>>, parents: &Vec<Vec<char>>, target: &[char]) -> (r: Vec<usize>)
    requires
        keys@.len() >= 1,
        keys@.len() == parents@.len(),
        forall|a: int, b: int| 0 <= a < b < keys@.len() ==> keys@[a]@ != keys@[b]@,
    ensures
        sorted_by_key(keys@, r@),
        forall|m: int| 0 <= m < r@.len() ==> 1 <= #[trigger] r@[m] && parents@[r@[m] as int]@ == target@,
        forall|j: int| 1 <= j < keys@.len() && parents@[j]@ == target@ ==> r@.contains(j as usize),
{
    let mut r: Vec<usize> = Vec::new();
    let mut j: usize = 1;
    while j < keys.len()
        invariant
            1 <= j <= keys@.len(),
            keys@.len() == parents@.len(),
            forall|a: int, b: int| 0 <= a < b < keys@.len() ==> keys@[a]@ != keys@[b]@,
            sorted_by_key(keys@, r@),
            forall|m: int| 0 <= m < r@.len() ==> 1 <= #[trigger] r@[m] < j && parents@[r@[m] as int]@ == target@,
            forall|q: int| 1 <= q < j && parents@[q]@ == target@ ==> r@.contains(q as usize),
        decreases keys@.len() - j,
    {
        if text::chars_eq(&parents[j], target) {
            let ghost old_r = r@;
            proof {
                assert forall|m: int| 0 <= m < r@.len() implies keys@[#[trigger] r@[m] as int]@ != keys@[j as int]@ by {
                    assert(r@[m] < j);
                }
            }
            insert_by_key(&mut r, keys, j);
            proof {
                assert forall|m: int| 0 <= m < r@.len() implies 1 <= #[trigger] r@[m] < j + 1 && parents@[r@[m] as int]@ == target@ by {
                    if r@[m] != j {
                        let w = choose|w: int| 0 <= w < old_r.len() && old_r[w] == r@[m];
                        assert(old_r[w] < j);
                    }
                }
                assert forall|q: int| 1 <= q < j + 1 && parents@[q]@ == target@ implies r@.contains(q as usize) by {
                    if q < j {
                        assert(old_r.contains(q as usize));
                        let w = choose|w: int| 0 <= w < old_r.len() && old_r[w] == q as usize;
                        assert(r@.contains(old_r[w]));
                    }
                }
            }
        }
        j = j + 1;
    }
    r
}

// ---------------------------------------------------------------------------
// Aggregation
// ---------------------------------------------------------------------------

pub open spec fn kid_statuses(nodes: Seq<CompareFoundationNode>, kids: Seq<usize>) -> Seq<CompareBaseStatus> {
    kids.map_values(|c: usize| nodes[c as int].base_status)
}

pub open spec fn kid_presences(nodes: Seq<CompareFoundationNode>, kids: Seq<usize>) -> Seq<CompareSidePresence> {
    kids.map_values(|c: usize| nodes[c as int].side_presence)
}

pub open spec fn agg_ok_idx(nodes: Seq<CompareFoundationNode>, cidx: Seq<Vec<usize>>, p: int) -> bool {
    nodes[p].source_index is None ==> nodes[p].base_status == agg_status(kid_statuses(nodes, cidx[p]@))
        && nodes[p].side_presence == agg_presence(kid_presences(nodes, cidx[p]@))
}

/// The same node apart from its status and presence.
pub open spec fn same_but_status(a: CompareFoundationNode, b: CompareFoundationNode) -> bool {
    &&& a.relative_path == b.relative_path
    &&& a.display_name == b.display_name
    &&& a.parent_relative_path == b.parent_relative_path
    &&& a.kind == b.kind
    &&& a.path_depth == b.path_depth
    &&& a.source_index == b.source_index
    &&& a.detail == b.detail
    &&& a.capabilities == b.capabilities
    &&& a.child_relative_paths == b.child_relative_paths
}

/// Adding a member to a group adds its sides to the group's presence.
proof fn lemma_agg_presence_push(a: Seq<CompareSidePresence>, x: CompareSidePresence)
    ensures
        agg_presence(a.push(x)) == (CompareSidePresence {
            left: agg_presence(a).left || x.left,
            right: agg_presence(a).right || x.right,
        }),
{
    let b = a.push(x);
    assert(b[a.len() as int] == x);
    if agg_presence(a).left {
        let k = choose|k: int| 0 <= k < a.len() && (#[trigger] a[k]).left;
        assert(b[k] == a[k]);
    }
    if agg_presence(a).right {
        let k = choose|k: int| 0 <= k < a.len() && (#[trigger] a[k]).right;
        assert(b[k] == a[k]);
    }
    if agg_presence(b).left {
        let k = choose|k: int| 0 <= k < b.len() && (#[trigger] b[k]).left;
        if k < a.len() {
            assert(b[k] == a[k]);
        }
    }
    if agg_presence(b).right {
        let k = choose|k: int| 0 <= k < b.len() && (#[trigger] b[k]).right;
        if k < a.len() {
            assert(b[k] == a[k]);
        }
    }
}

fn aggregate_kids(nodes: &Vec<CompareFoundationNode>, kids: &Vec<usize>) -> (r: (CompareBaseStatus, CompareSidePresence))
    requires
        forall|m: int| 0 <= m < kids@.len() ==> (#[trigger] kids@[m]) < nodes@.len(),
    ensures
        r.0 == agg_status(kid_statuses(nodes@, kids@)),
        r.1 == agg_presence(kid_presences(nodes@, kids@)),
{
    let mut statuses: Vec<CompareBaseStatus> = Vec::new();
    let mut presence = CompareSidePresence { left: false, right: false };
    for m in 0..kids.len()
        invariant
            forall|q: int| 0 <= q < kids@.len() ==> (#[trigger] kids@[q]) < nodes@.len(),
            statuses@ == kid_statuses(nodes@, kids@.take(m as int)),
            presence == agg_presence(kid_presences(nodes@, kids@.take(m as int))),
    {
        let c = kids[m];
        statuses.push(nodes[c].base_status);
        presence = presence.merge(nodes[c].side_presence);
        proof {
            assert(kids@.take(m + 1) =~= kids@.take(m as int).push(c));
            assert(kid_statuses(nodes@, kids@.take(m + 1)) =~= kid_statuses(nodes@, kids@.take(m as int)).push(nodes@[c as int].base_status));
            let a = kid_presences(nodes@, kids@.take(m as int));
            assert(kid_presences(nodes@, kids@.take(m + 1)) =~= a.push(nodes@[c as int].side_presence));
            lemma_agg_presence_push(a, nodes@[c as int].side_presence);
        }
    }
    proof {
        assert(kids@.take(kids@.len() as int) =~= kids@);
    }
    let status = CompareBaseStatus::aggregate(&statuses, CompareBaseStatus::Equal);
    (status, presence)
}

proof fn lemma_agg_preserved(
    a: Seq<CompareFoundationNode>,
    b: Seq<CompareFoundationNode>,
    cidx: Seq<Vec<usize>>,
    q: int,
    j: int,
)
    requires
        a.len() == b.len(),
        0 <= q < a.len(),
        q != j,
        b[q] == a[q],
        forall|x: int| 0 <= x < a.len() && x != j ==> b[x] == a[x],
        forall|m: int| 0 <= m < cidx[q]@.len() ==> (#[trigger] cidx[q]@[m]) < a.len() && cidx[q]@[m] != j,
        agg_ok_idx(a, cidx, q),
    ensures
        agg_ok_idx(b, cidx, q),
{
    assert(kid_statuses(b, cidx[q]@) =~= kid_statuses(a, cidx[q]@));
    assert(kid_presences(b, cidx[q]@) =~= kid_presences(a, cidx[q]@));
}

/// Second pass: every node without an entry takes its status and presence
/// from its children, deepest level first.
fn aggregate_levels(
    nodes: &mut Vec<CompareFoundationNode>,
    cidx: &Vec<Vec<usize>>,
    levels: &Vec<usize>,
)
    requires
        old(nodes)@.len() == cidx@.len(),
        levels@.len() == cidx@.len(),
        forall|p: int, m: int|
            0 <= p < cidx@.len() && 0 <= m < cidx@[p]@.len() ==> (#[trigger] cidx@[p]@[m]) < cidx@.len()
                && levels@[cidx@[p]@[m] as int] == levels@[p] + 1,
    ensures
        final(nodes)@.len() == old(nodes)@.len(),
        forall|p: int| 0 <= p < final(nodes)@.len() ==> same_but_status(#[trigger] final(nodes)@[p], old(nodes)@[p]),
        forall|p: int|
            0 <= p < final(nodes)@.len() && old(nodes)@[p].source_index is Some ==> (#[trigger] final(nodes)@[p]).base_status
                == old(nodes)@[p].base_status && final(nodes)@[p].side_presence == old(nodes)@[p].side_presence,
        forall|p: int| 0 <= p < final(nodes)@.len() ==> #[trigger] agg_ok_idx(final(nodes)@, cidx@, p),
{
    let ghost base = nodes@;
    let n = nodes.len();
    let mut maxl: usize = 0;
    for j in 0..n
        invariant
            n == levels@.len(),
            forall|q: int| 0 <= q < j ==> levels@[q] <= maxl,
    {
        if levels[j] > maxl {
            maxl = levels[j];
        }
    }
    proof {
        assert forall|p: int| 0 <= p < n && #[trigger] levels@[p] >= maxl + 1 implies agg_ok_idx(nodes@, cidx@, p) by {
        }
    }
    let mut d: usize = maxl;
    loop
        invariant
            n == nodes@.len() == cidx@.len() == levels@.len() == base.len(),
            forall|p: int, m: int|
                0 <= p < cidx@.len() && 0 <= m < cidx@[p]@.len() ==> (#[trigger] cidx@[p]@[m]) < cidx@.len()
                    && levels@[cidx@[p]@[m] as int] == levels@[p] + 1,
            forall|q: int| 0 <= q < n ==> levels@[q] <= maxl,
            d <= maxl,
            forall|p: int| 0 <= p < n ==> same_but_status(#[trigger] nodes@[p], base[p]),
            forall|p: int|
                0 <= p < n && base[p].source_index is Some ==> (#[trigger] nodes@[p]).base_status == base[p].base_status
                    && nodes@[p].side_presence == base[p].side_presence,
            forall|p: int| 0 <= p < n && (#[trigger] levels@[p]) > d ==> agg_ok_idx(nodes@, cidx@, p),
        ensures
            forall|p: int| 0 <= p < n ==> #[trigger] agg_ok_idx(nodes@, cidx@, p),
        decreases d,
    {
        for j in 0..n
            invariant
                n == nodes@.len() == cidx@.len() == levels@.len() == base.len(),
                forall|p: int, m: int|
                    0 <= p < cidx@.len() && 0 <= m < cidx@[p]@.len() ==> (#[trigger] cidx@[p]@[m]) < cidx@.len()
                        && levels@[cidx@[p]@[m] as int] == levels@[p] + 1,
                forall|p: int| 0 <= p < n ==> same_but_status(#[trigger] nodes@[p], base[p]),
                forall|p: int|
                    0 <= p < n && base[p].source_index is Some ==> (#[trigger] nodes@[p]).base_status == base[p].base_status
                        && nodes@[p].side_presence == base[p].side_presence,
                forall|p: int| 0 <= p < n && (#[trigger] levels@[p]) > d ==> agg_ok_idx(nodes@, cidx@, p),
                forall|p: int| 0 <= p < j && (#[trigger] levels@[p]) == d ==> agg_ok_idx(nodes@, cidx@, p),
        {
            if levels[j] == d && nodes[j].source_index.is_none() {
                let ghost before = nodes@;
                let (st, pr) = aggregate_kids(nodes, &cidx[j]);
                nodes[j].base_status = st;
                nodes[j].side_presence = pr;
                proof {
                    assert forall|m: int| 0 <= m < cidx@[j as int]@.len() implies cidx@[j as int]@[m] != j by {
                        assert(levels@[cidx@[j as int]@[m] as int] == levels@[j as int] + 1);
                    }
                    assert(kid_statuses(nodes@, cidx@[j as int]@) =~= kid_statuses(before, cidx@[j as int]@));
                    assert(kid_presences(nodes@, cidx@[j as int]@) =~= kid_presences(before, cidx@[j as int]@));
                    assert forall|q: int| 0 <= q < n && q != j && ((#[trigger] levels@[q]) > d || (q < j && levels@[q] == d)) implies agg_ok_idx(nodes@, cidx@, q) by {
                        assert forall|m: int| 0 <= m < cidx@[q]@.len() implies (#[trigger] cidx@[q]@[m]) < before.len() && cidx@[q]@[m] != j by {
                            assert(levels@[cidx@[q]@[m] as int] == levels@[q] + 1);
                        }
                        lemma_agg_preserved(before, nodes@, cidx@, q, j as int);
                    }
                    assert(agg_ok_idx(nodes@, cidx@, j as int));
                }
            }
        }
        if d == 0 {
            break;
        }
        d = d - 1;
    }
}

// ---------------------------------------------------------------------------
// Assembly
// ---------------------------------------------------------------------------

/// Nesting level of a node key.
fn level_exec(k: &Vec<char>) -> (r: usize)
    requires
        k@.len() > 0 ==> paths::normal_key(k@),
    ensures
        r == paths::key_level(k@),
{
    if k.len() == 0 {
        0
    } else {
        proof {
            paths::lemma_normal_key_first(k@);
            paths::lemma_slash_count_lt(k@);
        }
        slash_count_exec(k) + 1
    }
}

/// The keys of the nodes at `kids`.
pub open spec fn keys_of(keys: Seq<Vec<char>>, kids: Seq<usize>) -> Seq<Seq<char>> {
    kids.map_values(|c: usize| keys[c as int]@)
}

/// `kids` are the indices of the non-root nodes whose parent is `target`, sorted by key.
pub open spec fn kids_of(
    keys: Seq<Vec<char>>,
    parents: Seq<Vec<char>>,
    kids: Seq<usize>,
    target: Seq<char>,
) -> bool {
    &&& sorted_by_key(keys, kids)
    &&& forall|m: int|
        0 <= m < kids.len() ==> 1 <= #[trigger] kids[m] && parents[kids[m] as int]@ == target
    &&& forall|i: int| 1 <= i < keys.len() && parents[i]@ == target ==> kids.contains(i as usize)
}

/// The same node apart from its status, presence and children.
pub open spec fn same_fields(a: CompareFoundationNode, b: CompareFoundationNode) -> bool {
    &&& a.relative_path == b.relative_path
    &&& a.display_name == b.display_name
    &&& a.parent_relative_path == b.parent_relative_path
    &&& a.kind == b.kind
    &&& a.path_depth == b.path_depth
    &&& a.source_index == b.source_index
    &&& a.detail == b.detail
    &&& a.capabilities == b.capabilities
}

fn child_strings(keys: &Vec<Vec<char>>, kids: &Vec<usize>) -> (r: Vec<String>)
    requires
        forall|m: int| 0 <= m < kids@.len() ==> (#[trigger] kids@[m]) < keys@.len(),
    ensures
        r@.map_values(|s: String| s@) == keys_of(keys@, kids@),
{
    let mut r: Vec<String> = Vec::new();
    for m in 0..kids.len()
        invariant
            forall|q: int| 0 <= q < kids@.len() ==> (#[trigger] kids@[q]) < keys@.len(),
            r@.len() == m,
            forall|q: int| 0 <= q < m ==> (#[trigger] r@[q])@ == keys@[kids@[q] as int]@,
    {
        r.push(string_from_chars(&keys[kids[m]]));
    }
    assert(r@.map_values(|s: String| s@) =~= keys_of(keys@, kids@));
    r
}

/// With distinct keys, the node of a key is the one that has it.
proof fn lemma_index_of(f: CompareFoundation, i: int)
    requires
        0 <= i < f.node_seq().len(),
        forall|a: int, b: int| 0 <= a < b < f.node_seq().len() ==> f.key_at(a) != f.key_at(b),
    ensures
        f.has_key(f.key_at(i)),
        f.index_of(f.key_at(i)) == i,
        f.node_of(f.key_at(i)) == f.node_seq()[i],
{
    let key = f.key_at(i);
    assert(f.has_key(key));
    let j = f.index_of(key);
    assert(0 <= j < f.node_seq().len() && f.key_at(j) == key);
    if j < i {
        assert(f.key_at(j) != f.key_at(i));
    } else if j > i {
        assert(f.key_at(i) != f.key_at(j));
    }
}

/// Keys of the assembled foundation are those found by discovery.
proof fn lemma_assembled_keys(
    f: CompareFoundation,
    disc: Seq<CompareFoundationNode>,
    keys: Seq<Vec<char>>,
    es: Seq<SourceRecord>,
)
    requires
        f.node_seq().len() == disc.len(),
        discovery_base(disc, keys),
        discovery_domain(keys, es, es.len() as int, 0),
        forall|q: int| 0 <= q < disc.len() ==> same_fields(#[trigger] f.node_seq()[q], disc[q]),
    ensures
        forall|q: int| 0 <= q < disc.len() ==> #[trigger] f.key_at(q) == keys[q]@,
        forall|a: int, b: int| 0 <= a < b < f.node_seq().len() ==> f.key_at(a) != f.key_at(b),
        forall|key: Seq<char>|
            #[trigger] f.has_key(key) <==> (key.len() == 0 || covered(es, es.len() as int, key)),
{
    reveal(discovery_base);
    reveal(discovery_domain);
    let ns = f.node_seq();
    assert forall|q: int| 0 <= q < disc.len() implies #[trigger] f.key_at(q) == keys[q]@ by {
        assert(same_fields(ns[q], disc[q]));
    }
    assert forall|key: Seq<char>| #[trigger] f.has_key(key) <==> (key.len() == 0 || covered(
        es,
        es.len() as int,
        key,
    )) by {
        if f.has_key(key) {
            let i = choose|i: int| 0 <= i < ns.len() && #[trigger] f.key_at(i) == key;
            if i > 0 {
                assert(covered(es, es.len() as int, keys[i]@));
            }
        }
        if key.len() == 0 {
            assert(f.key_at(0) == key);
        } else if covered(es, es.len() as int, key) {
            let w = choose|i: int, k: int|
                0 <= i < es.len() && 1 <= k <= entry_comps(es[i]).len() && #[trigger] entry_prefix(
                    es,
                    i,
                    k,
                ) == key;
            assert(prefix_present(keys, es, w.0, w.1));
            let j = choose|j: int| 0 <= j < keys.len() && keys[j]@ == entry_prefix(es, w.0, w.1);
            assert(f.key_at(j) == key);
        }
    }
}

/// The children recorded on node `q` are exactly its children.
proof fn lemma_children_ok(
    f: CompareFoundation,
    disc: Seq<CompareFoundationNode>,
    keys: Seq<Vec<char>>,
    parents: Seq<Vec<char>>,
    cidx: Seq<Vec<usize>>,
    q: int,
)
    requires
        0 <= q < f.node_seq().len(),
        f.node_seq().len() == disc.len() == keys.len() == parents.len() == cidx.len(),
        keys.len() <= usize::MAX,
        keys_match(disc, keys),
        forall|j: int| 1 <= j < disc.len() ==> node_shaped(#[trigger] disc[j]),
        forall|i: int| 0 <= i < disc.len() ==> #[trigger] f.key_at(i) == keys[i]@,
        forall|i: int| 0 <= i < parents.len() ==> (#[trigger] parents[i])@ == paths::key_parent(keys[i]@),
        kids_of(keys, parents, cidx[q]@, keys[q]@),
        child_keys(f.node_seq()[q]) == keys_of(keys, cidx[q]@),
    ensures
        f.children_ok(f.node_seq()[q]),
{
    let ns = f.node_seq();
    let kids = cidx[q]@;
    let cs = child_keys(ns[q]);
    assert(ns[q].relative_path@ == keys[q]@) by {
        assert(f.key_at(q) == keys[q]@);
    }
    assert forall|m: int| 0 <= m < cs.len() implies f.has_key(#[trigger] cs[m]) && cs[m].len() > 0
        && paths::key_parent(cs[m]) == ns[q].relative_path@ by {
        let c = kids[m] as int;
        assert(cs[m] == keys[c]@);
        assert(f.key_at(c) == keys[c]@);
        assert(node_shaped(disc[c]));
        assert(parents[c]@ == paths::key_parent(keys[c]@));
    }
    assert forall|m: int| 0 <= m < cs.len() - 1 implies text::lex_lt(#[trigger] cs[m], cs[m + 1]) by {
        assert(text::lex_lt(keys[kids[m] as int]@, keys[kids[m + 1] as int]@));
    }
    assert forall|i: int|
        1 <= i < ns.len() && paths::key_parent(#[trigger] f.key_at(i)) == ns[q].relative_path@ implies cs.contains(
        f.key_at(i),
    ) by {
        assert(parents[i]@ == paths::key_parent(keys[i]@));
        assert(kids.contains(i as usize));
        let m = choose|m: int| 0 <= m < kids.len() && kids[m] == i as usize;
        assert(kids[m] as int == i);
        assert(cs[m] == keys[i]@);
    }
}

/// Node `q` without an entry carries the aggregate of its children.
proof fn lemma_aggregated_ok(
    f: CompareFoundation,
    keys: Seq<Vec<char>>,
    cidx: Seq<Vec<usize>>,
    q: int,
)
    requires
        0 <= q < f.node_seq().len(),
        f.node_seq().len() == keys.len() == cidx.len(),
        forall|i: int| 0 <= i < keys.len() ==> #[trigger] f.key_at(i) == keys[i]@,
        forall|a: int, b: int| 0 <= a < b < f.node_seq().len() ==> f.key_at(a) != f.key_at(b),
        forall|m: int| 0 <= m < cidx[q]@.len() ==> (#[trigger] cidx[q]@[m]) < keys.len(),
        child_keys(f.node_seq()[q]) == keys_of(keys, cidx[q]@),
        agg_ok_idx(f.node_seq(), cidx, q),
    ensures
        f.aggregated_ok(f.node_seq()[q]),
{
    let ns = f.node_seq();
    let kids = cidx[q]@;
    assert forall|m: int| 0 <= m < kids.len() implies f.node_of(keys[#[trigger] kids[m] as int]@)
        == ns[kids[m] as int] by {
        let c = kids[m] as int;
        lemma_index_of(f, c);
        assert(f.key_at(c) == keys[c]@);
    }
    assert(f.child_statuses(ns[q]) =~= kid_statuses(ns, kids));
    assert(f.child_presences(ns[q]) =~= kid_presences(ns, kids));
}

/// The fields of the node of a key, as the entries give them.
pub open spec fn fields_from_entries(
    n: CompareFoundationNode,
    es: Seq<SourceRecord>,
    key: Seq<char>,
) -> bool {
    match last_entry_at(es, es.len() as int, key) {
        Some(t) => entry_fields(n, es[t], t),
        None => directory_fields(n),
    }
}

/// The assembled foundation is well formed and describes the entries.
proof fn lemma_assembled(
    f: CompareFoundation,
    disc: Seq<CompareFoundationNode>,
    keys: Seq<Vec<char>>,
    parents: Seq<Vec<char>>,
    cidx: Seq<Vec<usize>>,
    es: Seq<SourceRecord>,
)
    requires
        f.node_seq().len() == disc.len() == keys.len() == parents.len() == cidx.len(),
        keys.len() <= usize::MAX,
        discovery_base(disc, keys),
        discovery_fields(disc, keys, es, es.len() as int),
        discovery_domain(keys, es, es.len() as int, 0),
        forall|i: int| 0 <= i < parents.len() ==> (#[trigger] parents[i])@ == paths::key_parent(keys[i]@),
        forall|q: int| 0 <= q < cidx.len() ==> kids_of(keys, parents, (#[trigger] cidx[q])@, keys[q]@),
        forall|q: int|
            0 <= q < cidx.len() ==> child_keys(#[trigger] f.node_seq()[q]) == keys_of(keys, cidx[q]@),
        forall|q: int| 0 <= q < disc.len() ==> same_fields(#[trigger] f.node_seq()[q], disc[q]),
        forall|q: int|
            0 <= q < disc.len() && disc[q].source_index is Some ==> (#[trigger] f.node_seq()[q]).base_status
                == disc[q].base_status && f.node_seq()[q].side_presence == disc[q].side_presence,
        forall|q: int| 0 <= q < cidx.len() ==> #[trigger] agg_ok_idx(f.node_seq(), cidx, q),
    ensures
        f.wf(),
        forall|key: Seq<char>|
            #[trigger] f.has_key(key) <==> (key.len() == 0 || covered(es, es.len() as int, key)),
        forall|key: Seq<char>|
            key.len() > 0 && #[trigger] f.has_key(key) ==> fields_from_entries(f.node_of(key), es, key),
{
    let ns = f.node_seq();
    lemma_assembled_keys(f, disc, keys, es);
    reveal(discovery_base);
    assert forall|i: int| 1 <= i < ns.len() implies node_shaped(#[trigger] ns[i]) && f.has_key(
        paths::key_parent(ns[i].relative_path@),
    ) by {
        assert(same_fields(ns[i], disc[i]));
        assert(node_shaped(disc[i]));
        let p = choose|p: int| 0 <= p < keys.len() && keys[p]@ == paths::key_parent(keys[i]@);
        assert(f.key_at(p) == keys[p]@);
        assert(f.key_at(i) == keys[i]@);
    }
    assert(root_shaped(ns[0])) by {
        assert(same_fields(ns[0], disc[0]));
    }
    assert forall|q: int| 0 <= q < ns.len() implies f.children_ok(#[trigger] ns[q]) by {
        assert(kids_of(keys, parents, cidx[q]@, keys[q]@));
        lemma_children_ok(f, disc, keys, parents, cidx, q);
    }
    assert forall|q: int| 0 <= q < ns.len() implies f.aggregated_ok(#[trigger] ns[q]) by {
        assert(kids_of(keys, parents, cidx[q]@, keys[q]@));
        assert(agg_ok_idx(ns, cidx, q));
        lemma_aggregated_ok(f, keys, cidx, q);
    }
    assert forall|key: Seq<char>|
        key.len() > 0 && #[trigger] f.has_key(key) implies fields_from_entries(f.node_of(key), es, key) by {
        reveal(discovery_fields);
        let i = choose|i: int| 0 <= i < ns.len() && #[trigger] f.key_at(i) == key;
        assert(f.key_at(i) == keys[i]@);
        assert(i != 0);
        lemma_index_of(f, i);
        assert(same_fields(ns[i], disc[i]));
        match last_entry_at(es, es.len() as int, keys[i]@) {
            Some(t) => {
                assert(entry_fields(disc[i], es[t], t));
            },
            None => {
                assert(directory_fields(disc[i]));
            },
        }
    }
}

impl CompareFoundation {
    /// The foundation of a list of source records: a node for every prefix of
    /// every record path, with the fields of the last record that names it (a
    /// plain directory otherwise), children sorted by path, and, on every node
    /// that no record names, the status and presence aggregated from its children.
    pub(crate) fn from_records(entries: &[SourceRecord]) -> (r: Self)
        requires
            forall|i: int|
                0 <= i < entries@.len() ==> (#[trigger] entries@[i]).kind != CompareNodeKind::Root,
        ensures
            r.wf(),
            r.source_paths() == entries@.map_values(
                |e: SourceRecord| paths::normalize_path(e.relative_path@),
            ),
            forall|key: Seq<char>|
                #[trigger] r.has_key(key) <==> (key.len() == 0 || covered(
                    entries@,
                    entries@.len() as int,
                    key,
                )),
            forall|key: Seq<char>|
                key.len() > 0 && #[trigger] r.has_key(key) ==> fields_from_entries(
                    r.node_of(key),
                    entries@,
                    key,
                ),
    {
        let (mut nodes, keys, ordered) = discover_nodes(entries);
        let ghost disc = nodes@;
        let n = nodes.len();
        proof {
            reveal(discovery_base);
            assert(keys@[0]@ == disc[0].relative_path@);
        }
        let mut parents: Vec<Vec<char>> = Vec::new();
        for j in 0..n
            invariant
                n == keys@.len(),
                parents@.len() == j,
                forall|q: int|
                    0 <= q < j ==> (#[trigger] parents@[q])@ == paths::key_parent(keys@[q]@),
        {
            parents.push(parent_key_exec(&keys[j]));
        }
        let mut cidx: Vec<Vec<usize>> = Vec::new();
        let mut levels: Vec<usize> = Vec::new();
        for j in 0..n
            invariant
                n == keys@.len() == parents@.len() == nodes@.len() == disc.len(),
                keys_match(disc, keys@),
                forall|a: int, b: int| 0 <= a < b < keys@.len() ==> keys@[a]@ != keys@[b]@,
                forall|q: int| 1 <= q < n ==> node_shaped(#[trigger] disc[q]),
                keys@[0]@.len() == 0,
                forall|q: int|
                    0 <= q < n ==> (#[trigger] parents@[q])@ == paths::key_parent(keys@[q]@),
                cidx@.len() == j,
                levels@.len() == j,
                forall|q: int| 0 <= q < j ==> #[trigger] levels@[q] == paths::key_level(keys@[q]@),
                forall|q: int|
                    0 <= q < j ==> kids_of(keys@, parents@, (#[trigger] cidx@[q])@, keys@[q]@),
                forall|q: int| 0 <= q < n ==> same_fields(#[trigger] nodes@[q], disc[q]),
                forall|q: int|
                    0 <= q < n ==> (#[trigger] nodes@[q]).base_status == disc[q].base_status
                        && nodes@[q].side_presence == disc[q].side_presence,
                forall|q: int|
                    0 <= q < j ==> child_keys(#[trigger] nodes@[q]) == keys_of(keys@, cidx@[q]@),
        {
            let kids = collect_children(&keys, &parents, &keys[j]);
            let names = child_strings(&keys, &kids);
            let ghost before = nodes@;
            nodes[j].child_relative_paths = names;
            proof {
                assert forall|q: int| 0 <= q < n && q != j implies nodes@[q] == before[q] by {}
                if j > 0 {
                    assert(node_shaped(disc[j as int]));
                    assert(keys@[j as int]@ == disc[j as int].relative_path@);
                }
            }
            let lv = level_exec(&keys[j]);
            cidx.push(kids);
            levels.push(lv);
        }
        proof {
            assert forall|p: int, m: int|
                0 <= p < cidx@.len() && 0 <= m < cidx@[p]@.len() implies (#[trigger] cidx@[p]@[m])
                < cidx@.len() && levels@[cidx@[p]@[m] as int] == levels@[p] + 1 by {
                assert(kids_of(keys@, parents@, cidx@[p]@, keys@[p]@));
                let c = cidx@[p]@[m] as int;
                assert(1 <= c < n);
                assert(node_shaped(disc[c]));
                assert(keys@[c]@ == disc[c].relative_path@);
                assert(parents@[c]@ == paths::key_parent(keys@[c]@));
                assert(levels@[c] == paths::key_level(keys@[c]@));
                assert(levels@[p] == paths::key_level(keys@[p]@));
            }
        }
        let ghost mid = nodes@;
        aggregate_levels(&mut nodes, &cidx, &levels);
        let ghost r = CompareFoundation { nodes: nodes, ordered_source_paths: ordered };
        proof {
            let ns = r.node_seq();
            assert forall|q: int| 0 <= q < n implies same_fields(#[trigger] ns[q], disc[q]) by {
                assert(same_but_status(ns[q], mid[q]));
                assert(same_fields(mid[q], disc[q]));
            }
            assert forall|q: int|
                0 <= q < n && disc[q].source_index is Some implies (#[trigger] ns[q]).base_status
                == disc[q].base_status && ns[q].side_presence == disc[q].side_presence by {
                assert(same_but_status(ns[q], mid[q]));
                assert(same_fields(mid[q], disc[q]));
            }
            assert forall|q: int| 0 <= q < n implies child_keys(#[trigger] ns[q]) == keys_of(
                keys@,
                cidx@[q]@,
            ) by {
                assert(same_but_status(ns[q], mid[q]));
                assert(child_keys(mid[q]) == keys_of(keys@, cidx@[q]@));
            }
            assert forall|q: int| 0 <= q < n implies #[trigger] agg_ok_idx(ns, cidx@, q) by {}
            lemma_assembled(r, disc, keys@, parents@, cidx@, entries@);
            assert(r.source_paths() =~= entries@.map_values(
                |e: SourceRecord| paths::normalize_path(e.relative_path@),
            ));
        }
        CompareFoundation { nodes, ordered_source_paths: ordered }
    }
}


impl CompareFoundation {
    /// The foundation of a list of compare entries: a node for every prefix of
    /// every entry path, with the fields of the last entry that names it (a
    /// plain directory otherwise), children sorted by path, and, on every node
    /// that no entry names, the status and presence aggregated from its children.
    #[verifier::spinoff_prover]
    pub fn from_compare_entries(entries: &[CompareEntry]) -> (r: Self)
        ensures
            r.wf(),
            r.source_paths() == entries@.map_values(
                |e: CompareEntry| paths::normalize_path(e.relative_path@),
            ),
            forall|key: Seq<char>|
                #[trigger] r.has_key(key) <==> (key.len() == 0 || covered(
                    records_of(entries@),
                    entries@.len() as int,
                    key,
                )),
            forall|key: Seq<char>|
                key.len() > 0 && #[trigger] r.has_key(key) ==> fields_from_entries(
                    r.node_of(key),
                    records_of(entries@),
                    key,
                ),
            entries@.len() == 0 ==> r.is_empty_foundation(),
    {
        let mut records: Vec<SourceRecord> = Vec::new();
        for i in 0..entries.len()
            invariant
                records@ == records_of(entries@).take(i as int),
        {
            records.push(record_from_entry(&entries[i]));
            proof {
                assert(records_of(entries@).take(i + 1) =~= records_of(entries@).take(
                    i as int,
                ).push(record_of(entries@[i as int])));
            }
        }
        proof {
            assert(records_of(entries@).take(entries@.len() as int) =~= records_of(entries@));
        }
        let r = Self::from_records(records.as_slice());
        proof {
            assert(r.source_paths() =~= entries@.map_values(
                |e: CompareEntry| paths::normalize_path(e.relative_path@),
            ));
            if entries@.len() == 0 {
                assert forall|key: Seq<char>| #[trigger] r.has_key(key) <==> key.len() == 0 by {
                    if covered(records_of(entries@), 0, key) {
                        let w = choose|i: int, k: int|
                            0 <= i < 0 && 1 <= k <= entry_comps(records_of(entries@)[i]).len()
                                && #[trigger] entry_prefix(records_of(entries@), i, k) == key;
                    }
                }
                lemma_only_root(r);
            }
        }
        r
    }
}

impl Default for CompareFoundation {
    /// The foundation with the root alone, as `empty` makes it.
    fn default() -> (r: Self)
        ensures
            r.wf(),
            r.is_empty_foundation(),
    {
        CompareFoundation::empty()
    }
}

/// Number of non-empty texts.
pub open spec fn count_nonempty(s: Seq<Seq<char>>) -> nat
    decreases s.len(),
{
    if s.len() == 0 {
        0
    } else {
        count_nonempty(s.drop_last()) + if s.last().len() > 0 {
            1nat
        } else {
            0nat
        }
    }
}

impl CompareFoundation {
    /// The nodes named by the first `n` non-empty source paths that have one, in source order.
    pub open spec fn source_node_seq_upto(self, n: int) -> Seq<CompareFoundationNode>
        decreases n,
    {
        if n <= 0 {
            Seq::<CompareFoundationNode>::empty()
        } else {
            let prev = self.source_node_seq_upto(n - 1);
            let p = self.source_paths()[n - 1];
            if p.len() > 0 && self.has_key(p) {
                prev.push(self.node_of(p))
            } else {
                prev
            }
        }
    }

    /// The nodes of the source entries, in source order.
    pub open spec fn source_node_seq(self) -> Seq<CompareFoundationNode> {
        self.source_node_seq_upto(self.source_paths().len() as int)
    }

    /// Index of the node with key `key`.
    fn find_index(&self, key: &[char]) -> (r: Option<usize>)
        requires
            self.wf(),
        ensures
            r matches Some(i) ==> i < self.node_seq().len() && self.key_at(i as int) == key@
                && self.node_of(key@) == self.node_seq()[i as int],
            r is None ==> !self.has_key(key@),
    {
        for i in 0..self.nodes.len()
            invariant
                self.wf(),
                forall|q: int| 0 <= q < i ==> self.key_at(q) != key@,
        {
            let k = chars_of(self.nodes[i].relative_path.as_str());
            if text::chars_eq(&k, key) {
                proof {
                    lemma_index_of(*self, i as int);
                }
                return Some(i);
            }
        }
        None
    }

    /// The node of the normal form of `relative_path`.
    pub fn node(&self, relative_path: &str) -> (r: Option<&CompareFoundationNode>)
        ensures
            r is Some == self.has_key(paths::normalize_path(relative_path@)),
            r matches Some(n) ==> *n == self.node_of(paths::normalize_path(relative_path@)),
    {
        proof {
            use_type_invariant(self);
        }
        let key = normalize_chars(&chars_of(relative_path));
        match self.find_index(&key) {
            Some(i) => Some(&self.nodes[i]),
            None => None,
        }
    }

    /// The node of source entry `source_index`.
    pub fn source_node(&self, source_index: usize) -> (r: Option<&CompareFoundationNode>)
        ensures
            source_index >= self.source_paths().len() ==> r is None,
            source_index < self.source_paths().len() ==> (r is Some == self.has_key(
                self.source_paths()[source_index as int],
            )),
            r matches Some(n) ==> *n == self.node_of(self.source_paths()[source_index as int]),
    {
        proof {
            use_type_invariant(self);
        }
        if source_index >= self.ordered_source_paths.len() {
            return None;
        }
        let key = chars_of(self.ordered_source_paths[source_index].as_str());
        match self.find_index(&key) {
            Some(i) => Some(&self.nodes[i]),
            None => None,
        }
    }

    /// The nodes of the source entries with a non-empty path, in source order.
    pub fn source_nodes(&self) -> (r: Vec<&CompareFoundationNode>)
        ensures
            r@.len() == self.source_node_seq().len(),
            forall|i: int| 0 <= i < r@.len() ==> *(#[trigger] r@[i]) == self.source_node_seq()[i],
    {
        proof {
            use_type_invariant(self);
        }
        let mut r: Vec<&CompareFoundationNode> = Vec::new();
        for i in 0..self.ordered_source_paths.len()
            invariant
                self.wf(),
                self.ordered_source_paths@.len() == self.source_paths().len(),
                r@.len() == self.source_node_seq_upto(i as int).len(),
                forall|q: int|
                    0 <= q < r@.len() ==> *(#[trigger] r@[q]) == self.source_node_seq_upto(i as int)[q],
        {
            let key = chars_of(self.ordered_source_paths[i].as_str());
            proof {
                assert(key@ == self.source_paths()[i as int]);
            }
            if key.len() > 0 {
                match self.find_index(&key) {
                    Some(j) => {
                        r.push(&self.nodes[j]);
                    },
                    None => {},
                }
            }
        }
        r
    }

    /// Number of source entries with a non-empty normalized path.
    pub fn source_entry_count(&self) -> (r: usize)
        ensures
            r == count_nonempty(self.source_paths()),
    {
        let mut c: usize = 0;
        for i in 0..self.ordered_source_paths.len()
            invariant
                self.ordered_source_paths@.len() == self.source_paths().len(),
                c == count_nonempty(self.source_paths().take(i as int)),
                c <= i,
        {
            proof {
                assert(self.source_paths().take(i + 1).drop_last() =~= self.source_paths().take(
                    i as int,
                ));
                assert(self.ordered_source_paths@[i as int]@ == self.source_paths()[i as int]);
            }
            if self.ordered_source_paths[i].as_str().unicode_len() > 0 {
                c = c + 1;
            }
        }
        proof {
            assert(self.source_paths().take(self.source_paths().len() as int) =~= self.source_paths());
        }
        c
    }

    /// The source index of the node of `relative_path`, if it has one.
    pub fn source_index_for_relative_path(&self, relative_path: &str) -> (r: Option<usize>)
        ensures
            r == match self.lookup(paths::normalize_path(relative_path@)) {
                Some(n) => n.source_index,
                None => None,
            },
    {
        proof {
            use_type_invariant(self);
        }
        match self.node(relative_path) {
            Some(n) => n.source_index,
            None => None,
        }
    }
}

/// The blocked-diff text that a row shows for capabilities.
pub open spec fn diff_reason_opt(c: CompareEntryCapabilities) -> Option<Seq<char>> {
    match c.diff {
        CompareDiffAvailability::Available => None,
        CompareDiffAvailability::Unavailable(reason) => Some(diff_reason_text(reason)),
    }
}

/// The blocked-analysis text that a row shows for capabilities.
pub open spec fn analysis_reason_opt(c: CompareEntryCapabilities) -> Option<Seq<char>> {
    match c.analysis {
        CompareAnalysisAvailability::Available => None,
        CompareAnalysisAvailability::Unavailable(reason) => Some(analysis_reason_text(reason)),
    }
}

/// `row` is the flat result row of node `n`.
pub open spec fn legacy_row_of(row: CompareEntryRowViewModel, n: CompareFoundationNode) -> bool {
    &&& row.relative_path@ == n.relative_path@
    &&& row.status@ == status_token(n.base_status)
    &&& row.detail@ == legacy_text_of(n.detail, n.kind)
    &&& row.entry_kind@ == kind_token(n.kind)
    &&& row.detail_kind@ == detail_kind_token(n.detail)
    &&& row.can_load_diff == (n.capabilities.diff is Available)
    &&& opt_view(row.diff_blocked_reason) == diff_reason_opt(n.capabilities)
    &&& row.can_load_analysis == (n.capabilities.analysis is Available)
    &&& opt_view(row.analysis_blocked_reason) == analysis_reason_opt(n.capabilities)
}

/// `c` is the immediate-child projection of node `n`.
pub open spec fn child_of(c: CompareImmediateChild, n: CompareFoundationNode) -> bool {
    &&& c.relative_path@ == n.relative_path@
    &&& c.display_name@ == n.display_name@
    &&& c.kind == n.kind
    &&& c.side_presence == n.side_presence
    &&& c.base_status == n.base_status
    &&& c.has_children == (n.child_relative_paths@.len() > 0)
    &&& c.source_index == n.source_index
}

/// The flat result row of a node.
pub fn project_legacy_entry_row(node: &CompareFoundationNode) -> (r: CompareEntryRowViewModel)
    ensures
        legacy_row_of(r, *node),
{
    CompareEntryRowViewModel {
        relative_path: node.relative_path.clone(),
        status: text::to_string(node.base_status.as_str()),
        detail: node.detail.legacy_text(node.kind),
        entry_kind: text::to_string(node.kind.as_str()),
        detail_kind: text::to_string(node.detail.kind_token()),
        can_load_diff: node.capabilities.can_load_diff(),
        diff_blocked_reason: node.capabilities.diff_blocked_reason_text(),
        can_load_analysis: node.capabilities.can_load_analysis(),
        analysis_blocked_reason: node.capabilities.analysis_blocked_reason_text(),
    }
}

impl CompareFoundation {
    /// Where focus clamping settles from candidate path `cand`: the first of it
    /// and its ancestors whose node is a directory target, or the root.
    pub open spec fn clamp_from(self, cand: Seq<char>) -> Option<Seq<char>>
        decreases cand.len(),
    {
        let here = self.lookup(paths::normalize_path(cand));
        if here is Some && is_dir_kind(here->0.kind) {
            focus_of(cand)
        } else {
            match paths::parent_path(cand) {
                Some(p) => if p.len() < cand.len() {
                    self.clamp_from(p)
                } else {
                    None
                },
                None => None,
            }
        }
    }

    /// What `clamp_compare_focus_path` gives for a focus.
    pub open spec fn clamp_spec(self, focus: Option<Seq<char>>) -> Option<Seq<char>> {
        match focus {
            None => None,
            Some(p) => self.clamp_from(paths::normalize_path(p)),
        }
    }

    /// The foundation with the root alone.
    pub fn empty() -> (r: Self)
        ensures
            r.wf(),
            r.source_paths().len() == 0,
            forall|key: Seq<char>| #[trigger] r.has_key(key) <==> key.len() == 0,
            r.is_empty_foundation(),
    {
        let mut nodes: Vec<CompareFoundationNode> = Vec::new();
        nodes.push(root_node());
        let ordered: Vec<String> = Vec::new();
        let ghost r = CompareFoundation { nodes: nodes, ordered_source_paths: ordered };
        proof {
            let ns = r.node_seq();
            assert(r.key_at(0) == Seq::<char>::empty());
            assert(child_keys(ns[0]) =~= Seq::<Seq<char>>::empty());
            assert(r.child_statuses(ns[0]) =~= Seq::<CompareBaseStatus>::empty());
            assert(r.child_presences(ns[0]) =~= Seq::<CompareSidePresence>::empty());
            assert(r.children_ok(ns[0]));
            assert(r.aggregated_ok(ns[0]));
            assert(r.source_paths() =~= Seq::<Seq<char>>::empty());
            assert forall|key: Seq<char>| #[trigger] r.has_key(key) <==> key.len() == 0 by {
                if key.len() == 0 {
                    assert(key =~= r.key_at(0));
                }
                if r.has_key(key) {
                    let i = choose|i: int| 0 <= i < ns.len() && #[trigger] r.key_at(i) == key;
                    assert(i == 0);
                }
            }
            lemma_only_root(r);
        }
        CompareFoundation { nodes, ordered_source_paths: ordered }
    }

    /// The nearest directory target at or above the focus, or the root.
    pub fn clamp_compare_focus_path(&self, focus: &CompareFocusPath) -> (r: CompareFocusPath)
        ensures
            r@ == self.clamp_spec(focus@),
    {
        proof {
            use_type_invariant(self);
        }
        if focus.is_root() {
            return CompareFocusPath::root();
        }
        let mut candidate = match focus.as_relative_path() {
            Some(p) => CompareFocusPath::relative(p).raw_text(),
            None => String::new(),
        };
        loop
            invariant
                self.wf(),
                self.clamp_from(candidate@) == self.clamp_spec(focus@),
            decreases candidate@.len(),
        {
            match self.node(candidate.as_str()) {
                Some(n) => {
                    if n.is_directory_target() {
                        return CompareFocusPath::relative(candidate.as_str());
                    }
                },
                None => {},
            }
            proof {
                paths::lemma_parent_path_shorter(candidate@);
            }
            match paths::parent_relative_path(candidate.as_str()) {
                Some(p) => {
                    candidate = p;
                },
                None => {
                    return CompareFocusPath::root();
                },
            }
        }
    }

    /// The clamped focus of the parent of the focus; the root for the root.
    pub fn parent_compare_focus_path(&self, focus: &CompareFocusPath) -> (r: CompareFocusPath)
        ensures
            r@ == match focus@ {
                None => None,
                Some(p) => match paths::parent_path(p) {
                    None => None,
                    Some(q) => self.clamp_spec(focus_of(q)),
                },
            },
    {
        proof {
            use_type_invariant(self);
        }
        let path = match focus.as_relative_path() {
            Some(p) => p,
            None => {
                return CompareFocusPath::root();
            },
        };
        match paths::parent_relative_path(path) {
            Some(parent) => self.clamp_compare_focus_path(&CompareFocusPath::relative(parent.as_str())),
            None => CompareFocusPath::root(),
        }
    }
}

impl CompareFoundation {
    /// Key of the node that a clamped focus names (`""` for the root).
    pub open spec fn clamped_key(self, focus: Option<Seq<char>>) -> Seq<char> {
        match self.clamp_spec(focus) {
            Some(k) => k,
            None => Seq::<char>::empty(),
        }
    }

    /// The children of the clamped focus, in path order.
    #[verifier::spinoff_prover]
    #[verifier::rlimit(40)]
    pub fn immediate_children(&self, focus: &CompareFocusPath) -> (r: Vec<CompareImmediateChild>)
        ensures
            !self.has_key(self.clamped_key(focus@)) ==> r@.len() == 0,
            self.has_key(self.clamped_key(focus@)) ==> r@.len() == child_keys(
                self.node_of(self.clamped_key(focus@)),
            ).len(),
            forall|m: int|
                0 <= m < r@.len() ==> child_of(
                    #[trigger] r@[m],
                    self.node_of(child_keys(self.node_of(self.clamped_key(focus@)))[m]),
                ),
    {
        proof {
            use_type_invariant(self);
        }
        let clamped = self.clamp_compare_focus_path(focus);
        let key = chars_of(clamped.raw_text().as_str());
        let mut r: Vec<CompareImmediateChild> = Vec::new();
        let i = match self.find_index(&key) {
            Some(i) => i,
            None => {
                return r;
            },
        };
        let node = &self.nodes[i];
        let ghost cs = child_keys(*node);
        proof {
            assert(self.children_ok(self.node_seq()[i as int]));
        }
        for m in 0..node.child_relative_paths.len()
            invariant
                self.wf(),
                *node == self.node_of(self.clamped_key(focus@)),
                cs == child_keys(*node),
                self.children_ok(*node),
                r@.len() == m,
                forall|q: int| 0 <= q < m ==> child_of(#[trigger] r@[q], self.node_of(cs[q])),
        {
            let ck = chars_of(node.child_relative_paths[m].as_str());
            proof {
                assert(ck@ == cs[m as int]);
                assert(self.has_key(cs[m as int]));
            }
            match self.find_index(&ck) {
                Some(j) => {
                    let c = &self.nodes[j];
                    r.push(
                        CompareImmediateChild {
                            relative_path: c.relative_path.clone(),
                            display_name: c.display_name.clone(),
                            kind: c.kind,
                            side_presence: c.side_presence,
                            base_status: c.base_status,
                            has_children: c.child_relative_paths.len() > 0,
                            source_index: c.source_index,
                        },
                    );
                },
                None => {},
            }
        }
        r
    }

    /// The flat result rows of the source entries, in source order.
    pub fn project_legacy_entry_rows(&self) -> (r: Vec<CompareEntryRowViewModel>)
        ensures
            r@.len() == self.source_node_seq().len(),
            forall|i: int| 0 <= i < r@.len() ==> legacy_row_of(#[trigger] r@[i], self.source_node_seq()[i]),
    {
        proof {
            use_type_invariant(self);
        }
        let nodes = self.source_nodes();
        let mut r: Vec<CompareEntryRowViewModel> = Vec::new();
        for i in 0..nodes.len()
            invariant
                nodes@.len() == self.source_node_seq().len(),
                forall|q: int| 0 <= q < nodes@.len() ==> *(#[trigger] nodes@[q]) == self.source_node_seq()[q],
                r@.len() == i,
                forall|q: int| 0 <= q < i ==> legacy_row_of(#[trigger] r@[q], self.source_node_seq()[q]),
        {
            r.push(project_legacy_entry_row(nodes[i]));
        }
        r
    }
}

/// A non-root key of a well-formed foundation is in normal form.
proof fn lemma_key_normal(f: CompareFoundation, k: Seq<char>)
    requires
        f.wf(),
        f.has_key(k),
        k.len() > 0,
    ensures
        paths::normalize_path(k) == k,
{
    let i = choose|i: int| 0 <= i < f.node_seq().len() && #[trigger] f.key_at(i) == k;
    assert(i != 0);
    assert(node_shaped(f.node_seq()[i]));
}

proof fn lemma_clamp_from_directory(f: CompareFoundation, cand: Seq<char>)
    requires
        f.wf(),
    ensures
        f.clamp_from(cand) matches Some(k) ==> k.len() > 0 && f.has_key(k) && is_dir_kind(
            f.node_of(k).kind,
        ),
    decreases cand.len(),
{
    let here = f.lookup(paths::normalize_path(cand));
    if !(here is Some && is_dir_kind(here->0.kind)) {
        match paths::parent_path(cand) {
            Some(p) => {
                if p.len() < cand.len() {
                    lemma_clamp_from_directory(f, p);
                }
            },
            None => {},
        }
    }
}

/// Clamping lands on the root or on an existing directory target.
pub proof fn lemma_clamp_lands_on_directory(f: CompareFoundation, focus: Option<Seq<char>>)
    requires
        f.wf(),
    ensures
        f.clamp_spec(focus) matches Some(k) ==> f.has_key(k) && is_dir_kind(f.node_of(k).kind),
{
    if let Some(p) = focus {
        lemma_clamp_from_directory(f, paths::normalize_path(p));
    }
}

/// A focus on an existing directory target is its own clamp.
pub proof fn lemma_clamp_keeps_directory(f: CompareFoundation, k: Seq<char>)
    requires
        f.wf(),
        f.has_key(k),
        k.len() > 0,
        is_dir_kind(f.node_of(k).kind),
    ensures
        f.clamp_spec(Some(k)) == Some(k),
{
    lemma_key_normal(f, k);
}

/// Clamping twice is clamping once.
pub proof fn lemma_clamp_idempotent(f: CompareFoundation, focus: Option<Seq<char>>)
    requires
        f.wf(),
    ensures
        f.clamp_spec(f.clamp_spec(focus)) == f.clamp_spec(focus),
{
    if let Some(p) = focus {
        lemma_clamp_from_directory(f, paths::normalize_path(p));
        if let Some(k) = f.clamp_spec(focus) {
            lemma_clamp_keeps_directory(f, k);
        }
    }
}

/// Length of the longest key among the first `n` nodes.
pub open spec fn max_key_len_upto(ns: Seq<CompareFoundationNode>, n: int) -> int
    decreases n,
{
    if n <= 0 {
        0
    } else {
        let m = max_key_len_upto(ns, n - 1);
        let l = ns[n - 1].relative_path@.len() as int;
        if l > m {
            l
        } else {
            m
        }
    }
}

impl CompareFoundation {
    /// Length of the longest key.
    pub open spec fn max_key_len(self) -> int {
        max_key_len_upto(self.node_seq(), self.node_seq().len() as int)
    }
}

proof fn lemma_max_key_len_upto(ns: Seq<CompareFoundationNode>, n: int)
    requires
        0 <= n <= ns.len(),
    ensures
        forall|i: int| 0 <= i < n ==> (#[trigger] ns[i]).relative_path@.len() <= max_key_len_upto(ns, n),
    decreases n,
{
    if n > 0 {
        lemma_max_key_len_upto(ns, n - 1);
    }
}

/// No key is longer than the longest key.
pub proof fn lemma_max_key_len(f: CompareFoundation)
    ensures
        forall|i: int| 0 <= i < f.node_seq().len() ==> (#[trigger] f.key_at(i)).len() <= f.max_key_len(),
{
    lemma_max_key_len_upto(f.node_seq(), f.node_seq().len() as int);
    assert forall|i: int| 0 <= i < f.node_seq().len() implies (#[trigger] f.key_at(i)).len() <= f.max_key_len() by {
        assert(f.node_seq()[i].relative_path@.len() <= f.max_key_len());
    }
}

/// A recorded child of a node has a longer key, in normal form, and a node.
pub proof fn lemma_child_key(f: CompareFoundation, n: CompareFoundationNode, m: int)
    requires
        f.wf(),
        f.children_ok(n),
        0 <= m < child_keys(n).len(),
    ensures
        child_keys(n)[m].len() > n.relative_path@.len(),
        paths::normalize_path(child_keys(n)[m]) == child_keys(n)[m],
        f.has_key(child_keys(n)[m]),
{
    let c = child_keys(n)[m];
    paths::lemma_key_parent_shorter(c);
    lemma_key_normal(f, c);
}

/// A well-formed foundation has its root, the node of the empty key.
pub proof fn lemma_root_present(f: CompareFoundation)
    requires
        f.wf(),
    ensures
        f.has_key(Seq::<char>::empty()),
        f.node_seq().len() >= 1,
        f.key_at(0) == Seq::<char>::empty(),
        f.source_paths().len() <= usize::MAX,
{
    assert(f.key_at(0) =~= Seq::<char>::empty());
    assert(f.ordered_source_paths@.len() == f.ordered_source_paths.len());
}

/// The parent of every non-root node is a node too.
pub proof fn lemma_parent_present(f: CompareFoundation, key: Seq<char>)
    requires
        f.wf(),
        f.has_key(key),
        key.len() > 0,
    ensures
        f.has_key(paths::key_parent(key)),
        1 <= f.index_of(key) < f.node_seq().len(),
        f.key_at(f.index_of(key)) == key,
{
    let i = f.index_of(key);
    assert(f.key_at(0) =~= Seq::<char>::empty());
    assert(i != 0);
    assert(node_shaped(f.node_seq()[i]));
}

/// A well-formed foundation whose only key is the empty one is the bare root.
pub proof fn lemma_only_root(f: CompareFoundation)
    requires
        f.wf(),
        forall|key: Seq<char>| #[trigger] f.has_key(key) <==> key.len() == 0,
    ensures
        f.node_seq().len() == 1,
        ({
            let n = f.node_of(Seq::<char>::empty());
            &&& root_shaped(n)
            &&& n.base_status == CompareBaseStatus::Equal
            &&& n.side_presence == (CompareSidePresence { left: false, right: false })
            &&& n.child_relative_paths@.len() == 0
        }),
{
    let ns = f.node_seq();
    let e = Seq::<char>::empty();
    assert(f.key_at(0) =~= e);
    if ns.len() > 1 {
        assert(f.has_key(f.key_at(1)));
        assert(f.key_at(1) =~= e);
        assert(f.key_at(0) != f.key_at(1));
    }
    assert(f.has_key(e));
    let i = f.index_of(e);
    assert(i == 0);
    let n = ns[0];
    assert(f.children_ok(n));
    let cs = child_keys(n);
    if cs.len() > 0 {
        assert(f.has_key(cs[0]) && cs[0].len() > 0);
    }
    assert(f.aggregated_ok(n));
    assert(f.child_statuses(n) =~= Seq::<CompareBaseStatus>::empty());
    assert(f.child_presences(n) =~= Seq::<CompareSidePresence>::empty());
}

/// What well-formedness says of the node of an existing key.
#[verifier::spinoff_prover]
pub proof fn lemma_node_facts(f: CompareFoundation, key: Seq<char>)
    requires
        f.wf(),
        f.has_key(key),
    ensures
        f.node_of(key).relative_path@ == key,
        f.children_ok(f.node_of(key)),
        f.aggregated_ok(f.node_of(key)),
        key.len() == 0 ==> root_shaped(f.node_of(key)),
        key.len() > 0 ==> node_shaped(f.node_of(key)),
        key.len() <= f.max_key_len(),
{
    let i = f.index_of(key);
    assert(f.key_at(i) == key);
    lemma_max_key_len(f);
    if key.len() == 0 {
        assert(f.key_at(0).len() == 0);
        lemma_index_of(f, 0);
    }
}

} // verus!
