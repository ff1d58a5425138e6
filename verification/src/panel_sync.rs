//! When the window rebuilds the models of the selected diff and compare-file
//! panels: on the first sync, and when the panel (or whether the compare-file
//! view is active) changed. Panels are compared field by field, texts by
//! their characters.

use vstd::prelude::*;
use crate::compare_foundation::opt_view;
use crate::text;
use crate::view_models::{
    CompareFilePanelViewModel, CompareFileRowViewModel, CompareFileTextSegmentViewModel,
    DiffHunkViewModel, DiffLineViewModel, DiffPanelViewModel,
};

verus! {

// ---------------------------------------------------------------------------
// Equality of panels
// ---------------------------------------------------------------------------

pub open spec fn segs_same(
    a: Seq<CompareFileTextSegmentViewModel>,
    b: Seq<CompareFileTextSegmentViewModel>,
) -> bool {
    &&& a.len() == b.len()
    &&& forall|i: int|
        0 <= i < a.len() ==> (#[trigger] a[i]).text@ == b[i].text@ && a[i].tone@ == b[i].tone@
}

pub open spec fn file_row_same(a: CompareFileRowViewModel, b: CompareFileRowViewModel) -> bool {
    &&& a.row_kind@ == b.row_kind@
    &&& a.relation_label@ == b.relation_label@
    &&& a.relation_tone@ == b.relation_tone@
    &&& a.left_line_no == b.left_line_no
    &&& a.right_line_no == b.right_line_no
    &&& a.left_text@ == b.left_text@
    &&& a.right_text@ == b.right_text@
    &&& segs_same(a.left_segments@, b.left_segments@)
    &&& segs_same(a.right_segments@, b.right_segments@)
    &&& a.left_padding == b.left_padding
    &&& a.right_padding == b.right_padding
    &&& a.focusable == b.focusable
}

/// Two compare-file panels are equal in every field.
pub open spec fn file_panel_same(a: CompareFilePanelViewModel, b: CompareFilePanelViewModel) -> bool {
    &&& a.relative_path@ == b.relative_path@
    &&& a.summary_text@ == b.summary_text@
    &&& a.rows@.len() == b.rows@.len()
    &&& forall|i: int| 0 <= i < a.rows@.len() ==> file_row_same(#[trigger] a.rows@[i], b.rows@[i])
    &&& opt_view(a.warning) == opt_view(b.warning)
    &&& a.truncated == b.truncated
}

pub open spec fn diff_line_same(a: DiffLineViewModel, b: DiffLineViewModel) -> bool {
    &&& a.old_line_no == b.old_line_no
    &&& a.new_line_no == b.new_line_no
    &&& a.kind@ == b.kind@
    &&& a.content@ == b.content@
}

pub open spec fn diff_hunk_same(a: DiffHunkViewModel, b: DiffHunkViewModel) -> bool {
    &&& a.old_start == b.old_start
    &&& a.old_len == b.old_len
    &&& a.new_start == b.new_start
    &&& a.new_len == b.new_len
    &&& a.lines@.len() == b.lines@.len()
    &&& forall|i: int| 0 <= i < a.lines@.len() ==> diff_line_same(#[trigger] a.lines@[i], b.lines@[i])
}

/// Two diff panels are equal in every field.
pub open spec fn diff_panel_same(a: DiffPanelViewModel, b: DiffPanelViewModel) -> bool {
    &&& a.relative_path@ == b.relative_path@
    &&& a.summary_text@ == b.summary_text@
    &&& a.hunks@.len() == b.hunks@.len()
    &&& forall|i: int| 0 <= i < a.hunks@.len() ==> diff_hunk_same(#[trigger] a.hunks@[i], b.hunks@[i])
    &&& opt_view(a.warning) == opt_view(b.warning)
    &&& a.truncated == b.truncated
}

fn opt_text_eq(a: &Option<String>, b: &Option<String>) -> (r: bool)
    ensures
        r == (opt_view(*a) == opt_view(*b)),
{
    match (a, b) {
        (Some(x), Some(y)) => text::str_eq(x.as_str(), y.as_str()),
        (None, None) => true,
        _ => false,
    }
}

fn segs_eq(a: &Vec<CompareFileTextSegmentViewModel>, b: &Vec<CompareFileTextSegmentViewModel>) -> (r:
    bool)
    ensures
        r == segs_same(a@, b@),
{
    if a.len() != b.len() {
        return false;
    }
    for i in 0..a.len()
        invariant
            a@.len() == b@.len(),
            forall|j: int| 0 <= j < i ==> (#[trigger] a@[j]).text@ == b@[j].text@ && a@[j].tone@ == b@[j].tone@,
    {
        if !text::str_eq(a[i].text.as_str(), b[i].text.as_str()) || !text::str_eq(
            a[i].tone.as_str(),
            b[i].tone.as_str(),
        ) {
            return false;
        }
    }
    true
}

fn file_row_eq(a: &CompareFileRowViewModel, b: &CompareFileRowViewModel) -> (r: bool)
    ensures
        r == file_row_same(*a, *b),
{
    text::str_eq(a.row_kind.as_str(), b.row_kind.as_str()) && text::str_eq(
        a.relation_label.as_str(),
        b.relation_label.as_str(),
    ) && text::str_eq(a.relation_tone.as_str(), b.relation_tone.as_str()) && a.left_line_no
        == b.left_line_no && a.right_line_no == b.right_line_no && text::str_eq(
        a.left_text.as_str(),
        b.left_text.as_str(),
    ) && text::str_eq(a.right_text.as_str(), b.right_text.as_str()) && segs_eq(
        &a.left_segments,
        &b.left_segments,
    ) && segs_eq(&a.right_segments, &b.right_segments) && a.left_padding == b.left_padding
        && a.right_padding == b.right_padding && a.focusable == b.focusable
}

fn file_panel_eq(a: &CompareFilePanelViewModel, b: &CompareFilePanelViewModel) -> (r: bool)
    ensures
        r == file_panel_same(*a, *b),
{
    if !text::str_eq(a.relative_path.as_str(), b.relative_path.as_str()) || !text::str_eq(
        a.summary_text.as_str(),
        b.summary_text.as_str(),
    ) || a.rows.len() != b.rows.len() || !opt_text_eq(&a.warning, &b.warning) || a.truncated
        != b.truncated {
        return false;
    }
    for i in 0..a.rows.len()
        invariant
            a.rows@.len() == b.rows@.len(),
            forall|j: int| 0 <= j < i ==> file_row_same(#[trigger] a.rows@[j], b.rows@[j]),
    {
        if !file_row_eq(&a.rows[i], &b.rows[i]) {
            return false;
        }
    }
    true
}

fn diff_line_eq(a: &DiffLineViewModel, b: &DiffLineViewModel) -> (r: bool)
    ensures
        r == diff_line_same(*a, *b),
{
    a.old_line_no == b.old_line_no && a.new_line_no == b.new_line_no && text::str_eq(
        a.kind.as_str(),
        b.kind.as_str(),
    ) && text::str_eq(a.content.as_str(), b.content.as_str())
}

fn diff_hunk_eq(a: &DiffHunkViewModel, b: &DiffHunkViewModel) -> (r: bool)
    ensures
        r == diff_hunk_same(*a, *b),
{
    if a.old_start != b.old_start || a.old_len != b.old_len || a.new_start != b.new_start
        || a.new_len != b.new_len || a.lines.len() != b.lines.len() {
        return false;
    }
    for i in 0..a.lines.len()
        invariant
            a.lines@.len() == b.lines@.len(),
            forall|j: int| 0 <= j < i ==> diff_line_same(#[trigger] a.lines@[j], b.lines@[j]),
    {
        if !diff_line_eq(&a.lines[i], &b.lines[i]) {
            return false;
        }
    }
    true
}

fn diff_panel_eq(a: &DiffPanelViewModel, b: &DiffPanelViewModel) -> (r: bool)
    ensures
        r == diff_panel_same(*a, *b),
{
    if !text::str_eq(a.relative_path.as_str(), b.relative_path.as_str()) || !text::str_eq(
        a.summary_text.as_str(),
        b.summary_text.as_str(),
    ) || a.hunks.len() != b.hunks.len() || !opt_text_eq(&a.warning, &b.warning) || a.truncated
        != b.truncated {
        return false;
    }
    for i in 0..a.hunks.len()
        invariant
            a.hunks@.len() == b.hunks@.len(),
            forall|j: int| 0 <= j < i ==> diff_hunk_same(#[trigger] a.hunks@[j], b.hunks@[j]),
    {
        if !diff_hunk_eq(&a.hunks[i], &b.hunks[i]) {
            return false;
        }
    }
    true
}

// ---------------------------------------------------------------------------
// Refresh decisions
// ---------------------------------------------------------------------------

/// Whether two selected diffs are the same: both absent, or equal panels.
pub open spec fn same_selected_diff(a: Option<DiffPanelViewModel>, b: Option<DiffPanelViewModel>) -> bool {
    match (a, b) {
        (None, None) => true,
        (Some(x), Some(y)) => diff_panel_same(x, y),
        _ => false,
    }
}

/// Whether two selected compare files are the same: both absent, or equal panels.
pub open spec fn same_selected_file(
    a: Option<CompareFilePanelViewModel>,
    b: Option<CompareFilePanelViewModel>,
) -> bool {
    match (a, b) {
        (None, None) => true,
        (Some(x), Some(y)) => file_panel_same(x, y),
        _ => false,
    }
}

/// The diff models are rebuilt on the first sync (no previous selection
/// given) and whenever the selected diff changed.
pub fn should_refresh_diff_models(
    last_selected_diff: Option<&Option<DiffPanelViewModel>>,
    next_selected_diff: &Option<DiffPanelViewModel>,
) -> (r: bool)
    ensures
        r == match last_selected_diff {
            None => true,
            Some(last) => !same_selected_diff(*last, *next_selected_diff),
        },
{
    match last_selected_diff {
        None => true,
        Some(last) => match (last, next_selected_diff) {
            (None, None) => false,
            (Some(x), Some(y)) => !diff_panel_eq(x, y),
            _ => true,
        },
    }
}

/// The compare-file models are rebuilt on the first sync (no previous state
/// given) and whenever the selected compare file, or whether the
/// compare-file view is active, changed.
pub fn should_refresh_compare_file_models(
    last: Option<(&Option<CompareFilePanelViewModel>, bool)>,
    next_selected_compare_file: &Option<CompareFilePanelViewModel>,
    next_compare_file_view_active: bool,
) -> (r: bool)
    ensures
        r == match last {
            None => true,
            Some((file, active)) => !same_selected_file(*file, *next_selected_compare_file)
                || active != next_compare_file_view_active,
        },
{
    match last {
        None => true,
        Some((file, active)) => {
            let same = match (file, next_selected_compare_file) {
                (None, None) => true,
                (Some(x), Some(y)) => file_panel_eq(x, y),
                _ => false,
            };
            !same || active != next_compare_file_view_active
        },
    }
}

} // verus!
