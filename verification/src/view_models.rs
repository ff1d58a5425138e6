//! Row and panel view models handed to the UI layer.

use vstd::prelude::*;
use crate::text;
use crate::text::{push_dec_usize, push_str, string_from_chars};

verus! {

/// One flat compare-result row.
#[derive(Debug, Clone, PartialEq, Eq, Default)]
pub struct CompareEntryRowViewModel {
    pub relative_path: String,
    pub status: String,
    pub detail: String,
    pub entry_kind: String,
    pub detail_kind: String,
    pub can_load_diff: bool,
    pub diff_blocked_reason: Option<String>,
    pub can_load_analysis: bool,
    pub analysis_blocked_reason: Option<String>,
}

/// One styled run of text in a compare-file row.
#[derive(Debug, Clone, PartialEq, Eq, Default)]
pub struct CompareFileTextSegmentViewModel {
    pub text: String,
    pub tone: String,
}

/// One side-by-side row of the compare-file view.
#[derive(Debug, Clone, PartialEq, Eq, Default)]
pub struct CompareFileRowViewModel {
    pub row_kind: String,
    pub relation_label: String,
    pub relation_tone: String,
    pub left_line_no: Option<usize>,
    pub right_line_no: Option<usize>,
    pub left_text: String,
    pub right_text: String,
    pub left_segments: Vec<CompareFileTextSegmentViewModel>,
    pub right_segments: Vec<CompareFileTextSegmentViewModel>,
    pub left_padding: bool,
    pub right_padding: bool,
    pub focusable: bool,
}

/// The compare-file view of one file.
#[derive(Debug, Clone, PartialEq, Eq, Default)]
pub struct CompareFilePanelViewModel {
    pub relative_path: String,
    pub summary_text: String,
    pub rows: Vec<CompareFileRowViewModel>,
    pub warning: Option<String>,
    pub truncated: bool,
}

/// One line of the unified diff panel.
#[derive(Debug, Clone, PartialEq, Eq, Default)]
pub struct DiffLineViewModel {
    pub old_line_no: Option<usize>,
    pub new_line_no: Option<usize>,
    pub kind: String,
    pub content: String,
}

/// One hunk of the unified diff panel.
#[derive(Debug, Clone, PartialEq, Eq, Default)]
pub struct DiffHunkViewModel {
    pub old_start: usize,
    pub old_len: usize,
    pub new_start: usize,
    pub new_len: usize,
    pub lines: Vec<DiffLineViewModel>,
}

/// The unified diff panel of one file.
#[derive(Debug, Clone, PartialEq, Eq, Default)]
pub struct DiffPanelViewModel {
    pub relative_path: String,
    pub summary_text: String,
    pub hunks: Vec<DiffHunkViewModel>,
    pub warning: Option<String>,
    pub truncated: bool,
}

/// The AI analysis panel.
#[derive(Debug, Clone, PartialEq, Eq, Default)]
pub struct AnalysisResultViewModel {
    pub title: String,
    pub risk_level: String,
    pub rationale: String,
    pub key_points: Vec<String>,
    pub review_suggestions: Vec<String>,
}

/// The `@@ -a,b +c,d @@` header of a hunk.
pub open spec fn hunk_header(h: DiffHunkViewModel) -> Seq<char> {
    "@@ -"@ + text::dec(h.old_start as nat) + ","@ + text::dec(h.old_len as nat) + " +"@ + text::dec(
        h.new_start as nat,
    ) + ","@ + text::dec(h.new_len as nat) + " @@"@
}

/// The tag of a line kind: `added`, `removed`, else `context`.
pub open spec fn line_kind_tag(kind: Seq<char>) -> Seq<char> {
    if kind == "Added"@ {
        "added"@
    } else if kind == "Removed"@ {
        "removed"@
    } else {
        "context"@
    }
}

/// The unified-diff marker of a line kind: `+`, `-`, else a space.
pub open spec fn line_marker(kind: Seq<char>) -> Seq<char> {
    if kind == "Added"@ {
        "+"@
    } else if kind == "Removed"@ {
        "-"@
    } else {
        " "@
    }
}

impl DiffHunkViewModel {
    /// The unified-diff header of the hunk.
    pub fn header(&self) -> (r: String)
        ensures
            r@ == hunk_header(*self),
    {
        let mut out: Vec<char> = Vec::new();
        push_str(&mut out, "@@ -");
        push_dec_usize(&mut out, self.old_start);
        push_str(&mut out, ",");
        push_dec_usize(&mut out, self.old_len);
        push_str(&mut out, " +");
        push_dec_usize(&mut out, self.new_start);
        push_str(&mut out, ",");
        push_dec_usize(&mut out, self.new_len);
        push_str(&mut out, " @@");
        string_from_chars(&out)
    }
}

impl DiffLineViewModel {
    /// The tag of the line's kind.
    pub fn kind_tag(&self) -> (r: &'static str)
        ensures
            r@ == line_kind_tag(self.kind@),
    {
        if text::str_eq(self.kind.as_str(), "Added") {
            "added"
        } else if text::str_eq(self.kind.as_str(), "Removed") {
            "removed"
        } else {
            "context"
        }
    }

    /// The unified-diff marker of the line.
    pub fn marker(&self) -> (r: &'static str)
        ensures
            r@ == line_marker(self.kind@),
    {
        if text::str_eq(self.kind.as_str(), "Added") {
            "+"
        } else if text::str_eq(self.kind.as_str(), "Removed") {
            "-"
        } else {
            " "
        }
    }
}

} // verus!
