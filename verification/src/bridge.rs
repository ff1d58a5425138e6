//! Mapping between the compare and analysis engines' plain results and the
//! panels of the UI, and the requests the UI sends them.

use vstd::prelude::*;
use crate::compare_foundation::{CompareFoundation, legacy_row_of, opt_view};
use crate::compare_foundation;
use crate::core_model::{
    CompareEntry, CompareReport, DiffLineKind, EntryDetail, EntryKind, EntryStatus, TextDiffResult,
    TextDiffSummary,
};
use crate::paths;
use crate::text;
use crate::text::{chars_of, push_all, push_dec_usize, push_str, string_from_chars, trim};
use crate::view_models::{
    AnalysisResultViewModel, CompareEntryRowViewModel, DiffHunkViewModel, DiffLineViewModel,
    DiffPanelViewModel,
};

verus! {

/// The compare result as the UI shows it.
pub struct CompareResultViewModel {
    pub summary_text: String,
    pub compare_foundation: CompareFoundation,
    pub entry_rows: Vec<CompareEntryRowViewModel>,
    pub warnings: Vec<String>,
    pub truncated: bool,
}

/// A compare root as typed: the trimmed path, or the message for an empty one.
pub fn compare_root_input(label: &str, raw_path: &str) -> (r: Result<String, String>)
    ensures
        trim(raw_path@).len() == 0 ==> (r matches Err(m) && m@ == label@ + " path is empty. Select a folder first."@),
        trim(raw_path@).len() > 0 ==> (r matches Ok(p) && p@ == trim(raw_path@)),
{
    let trimmed = text::trim_str(raw_path);
    if trimmed.as_str().unicode_len() == 0 {
        let mut m = chars_of(label);
        push_str(&mut m, " path is empty. Select a folder first.");
        return Err(string_from_chars(&m));
    }
    Ok(trimmed)
}

/// `mode=... total=... equal=... ...` of a compare report.
pub open spec fn report_summary_text(r: CompareReport) -> Seq<char> {
    let s = r.summary;
    let mode = if s.summary_first_mode {
        "summary-first"@
    } else if s.large_mode {
        "large"@
    } else {
        "normal"@
    };
    "mode="@ + mode + " total="@ + text::dec(s.total_entries as nat) + " equal="@ + text::dec(
        s.equal as nat,
    ) + " different="@ + text::dec(s.different as nat) + " left_only="@ + text::dec(
        s.left_only as nat,
    ) + " right_only="@ + text::dec(s.right_only as nat) + " pending="@ + text::dec(
        s.pending as nat,
    ) + " skipped="@ + text::dec(s.skipped as nat) + " deferred="@ + text::dec(
        s.deferred_detail_entries as nat,
    ) + " oversized_text="@ + text::dec(s.oversized_text_entries as nat) + if r.truncated {
        " | truncated=true"@
    } else {
        Seq::empty()
    }
}

/// The compare result of a report: its counts as the summary, the foundation
/// of its entries, the flat rows of that foundation, its warnings.
pub fn map_compare_report(report: CompareReport) -> (r: CompareResultViewModel)
    ensures
        r.summary_text@ == report_summary_text(report),
        r.compare_foundation.wf(),
        r.compare_foundation.source_paths() == report.entries@.map_values(
            |e: crate::core_model::CompareEntry| paths::normalize_path(e.relative_path@),
        ),
        forall|key: Seq<char>|
            #[trigger] r.compare_foundation.has_key(key) <==> (key.len() == 0
                || compare_foundation::covered(
                compare_foundation::records_of(report.entries@),
                report.entries@.len() as int,
                key,
            )),
        forall|key: Seq<char>|
            key.len() > 0 && #[trigger] r.compare_foundation.has_key(key)
                ==> compare_foundation::fields_from_entries(
                r.compare_foundation.node_of(key),
                compare_foundation::records_of(report.entries@),
                key,
            ),
        r.entry_rows@.len() == r.compare_foundation.source_node_seq().len(),
        forall|i: int|
            0 <= i < r.entry_rows@.len() ==> legacy_row_of(
                #[trigger] r.entry_rows@[i],
                r.compare_foundation.source_node_seq()[i],
            ),
        r.warnings == report.warnings,
        r.truncated == report.truncated,
{
    let s = report.summary;
    let mut t: Vec<char> = Vec::new();
    push_str(&mut t, "mode=");
    if s.summary_first_mode {
        push_str(&mut t, "summary-first");
    } else if s.large_mode {
        push_str(&mut t, "large");
    } else {
        push_str(&mut t, "normal");
    }
    push_str(&mut t, " total=");
    push_dec_usize(&mut t, s.total_entries);
    push_str(&mut t, " equal=");
    push_dec_usize(&mut t, s.equal);
    push_str(&mut t, " different=");
    push_dec_usize(&mut t, s.different);
    push_str(&mut t, " left_only=");
    push_dec_usize(&mut t, s.left_only);
    push_str(&mut t, " right_only=");
    push_dec_usize(&mut t, s.right_only);
    push_str(&mut t, " pending=");
    push_dec_usize(&mut t, s.pending);
    push_str(&mut t, " skipped=");
    push_dec_usize(&mut t, s.skipped);
    push_str(&mut t, " deferred=");
    push_dec_usize(&mut t, s.deferred_detail_entries);
    push_str(&mut t, " oversized_text=");
    push_dec_usize(&mut t, s.oversized_text_entries);
    if report.truncated {
        push_str(&mut t, " | truncated=true");
    }
    proof {
        assert(t@ =~= report_summary_text(report));
    }
    let compare_foundation = CompareFoundation::from_compare_entries(report.entries.as_slice());
    let entry_rows = compare_foundation.project_legacy_entry_rows();
    CompareResultViewModel {
        summary_text: string_from_chars(&t),
        compare_foundation,
        entry_rows,
        warnings: report.warnings,
        truncated: report.truncated,
    }
}

/// A text-diff request: the two compare roots and the path of the file below them.
#[derive(Debug, Clone, PartialEq, Eq)]
pub struct TextDiffRequest {
    pub left_root: String,
    pub right_root: String,
    pub relative_path: String,
}

/// The request to diff the file of a compare row: both roots are required,
/// and the row must allow a detailed diff (else its reason is the error).
pub fn build_text_diff_request(left_root: &str, right_root: &str, row: &CompareEntryRowViewModel) -> (r:
    Result<TextDiffRequest, String>)
    ensures
        trim(left_root@).len() == 0 ==> (r matches Err(m) && m@ == "left root path is required"@),
        trim(left_root@).len() > 0 && trim(right_root@).len() == 0 ==> (r matches Err(m) && m@
            == "right root path is required"@),
        trim(left_root@).len() > 0 && trim(right_root@).len() > 0 && !row.can_load_diff ==> (r matches Err(m)
            && m@ == reason_or(row.diff_blocked_reason, "selected row does not support detailed text diff"@)),
        trim(left_root@).len() > 0 && trim(right_root@).len() > 0 && row.can_load_diff ==> (r matches Ok(q)
            && q.left_root@ == trim(left_root@) && q.right_root@ == trim(right_root@)
            && q.relative_path@ == row.relative_path@),
{
    let left = text::trim_str(left_root);
    let right = text::trim_str(right_root);
    if left.as_str().unicode_len() == 0 {
        return Err(text::to_string("left root path is required"));
    }
    if right.as_str().unicode_len() == 0 {
        return Err(text::to_string("right root path is required"));
    }
    if !row.can_load_diff {
        return Err(
            match &row.diff_blocked_reason {
                Some(reason) => reason.clone(),
                None => text::to_string("selected row does not support detailed text diff"),
            },
        );
    }
    Ok(TextDiffRequest { left_root: left, right_root: right, relative_path: row.relative_path.clone() })
}

/// A row's blocked reason, or the fallback text.
pub open spec fn reason_or(reason: Option<String>, fallback: Seq<char>) -> Seq<char> {
    match reason {
        Some(r) => r@,
        None => fallback,
    }
}

/// The kind name of a diff line.
pub open spec fn line_kind_text(kind: DiffLineKind) -> Seq<char> {
    match kind {
        DiffLineKind::Added => "Added"@,
        DiffLineKind::Removed => "Removed"@,
        DiffLineKind::Context => "Context"@,
    }
}

/// The kind name of a diff line.
pub fn diff_line_kind_text(kind: DiffLineKind) -> (r: &'static str)
    ensures
        r@ == line_kind_text(kind),
{
    match kind {
        DiffLineKind::Added => "Added",
        DiffLineKind::Removed => "Removed",
        DiffLineKind::Context => "Context",
    }
}

/// `line` shows diff line `d`.
pub open spec fn line_of(line: DiffLineViewModel, d: crate::core_model::DiffLine) -> bool {
    &&& line.old_line_no == d.old_line_no
    &&& line.new_line_no == d.new_line_no
    &&& line.kind@ == line_kind_text(d.kind)
    &&& line.content@ == d.content@
}

/// `h` shows diff hunk `d`.
pub open spec fn hunk_of(h: DiffHunkViewModel, d: crate::core_model::DiffHunk) -> bool {
    &&& h.old_start == d.old_start
    &&& h.old_len == d.old_len
    &&& h.new_start == d.new_start
    &&& h.new_len == d.new_len
    &&& h.lines@.len() == d.lines@.len()
    &&& forall|i: int| 0 <= i < h.lines@.len() ==> line_of(#[trigger] h.lines@[i], d.lines@[i])
}

/// The diff panel of a text diff: its counts as the summary and every hunk
/// and line as the diff has them.
pub fn map_text_diff_result(relative_path: &str, result: TextDiffResult) -> (r: DiffPanelViewModel)
    ensures
        r.relative_path@ == relative_path@,
        r.summary_text@ == crate::compare_file::summary_text_of(
            result.summary.hunk_count,
            result.summary.added_lines,
            result.summary.removed_lines,
            result.summary.context_lines,
        ),
        r.hunks@.len() == result.hunks@.len(),
        forall|i: int| 0 <= i < r.hunks@.len() ==> hunk_of(#[trigger] r.hunks@[i], result.hunks@[i]),
        opt_view(r.warning) == opt_view(result.warning),
        r.truncated == result.truncated,
{
    let summary = result.summary;
    let mut st: Vec<char> = Vec::new();
    push_str(&mut st, "hunks=");
    push_dec_usize(&mut st, summary.hunk_count);
    push_str(&mut st, " +");
    push_dec_usize(&mut st, summary.added_lines);
    push_str(&mut st, " -");
    push_dec_usize(&mut st, summary.removed_lines);
    push_str(&mut st, " ctx=");
    push_dec_usize(&mut st, summary.context_lines);
    proof {
        assert(st@ =~= crate::compare_file::summary_text_of(
            summary.hunk_count,
            summary.added_lines,
            summary.removed_lines,
            summary.context_lines,
        ));
    }
    let mut hunks: Vec<DiffHunkViewModel> = Vec::new();
    for h in 0..result.hunks.len()
        invariant
            hunks@.len() == h,
            forall|i: int| 0 <= i < h ==> hunk_of(#[trigger] hunks@[i], result.hunks@[i]),
    {
        let hunk = &result.hunks[h];
        let mut lines: Vec<DiffLineViewModel> = Vec::new();
        for k in 0..hunk.lines.len()
            invariant
                lines@.len() == k,
                forall|i: int| 0 <= i < k ==> line_of(#[trigger] lines@[i], hunk.lines@[i]),
        {
            let line = &hunk.lines[k];
            lines.push(
                DiffLineViewModel {
                    old_line_no: line.old_line_no,
                    new_line_no: line.new_line_no,
                    kind: text::to_string(diff_line_kind_text(line.kind)),
                    content: line.content.clone(),
                },
            );
        }
        hunks.push(
            DiffHunkViewModel {
                old_start: hunk.old_start,
                old_len: hunk.old_len,
                new_start: hunk.new_start,
                new_len: hunk.new_len,
                lines,
            },
        );
    }
    DiffPanelViewModel {
        relative_path: text::to_string(relative_path),
        summary_text: string_from_chars(&st),
        hunks,
        warning: result.warning,
        truncated: result.truncated,
    }
}

/// The panel that says why a single-side preview is unavailable.
pub open spec fn unavailable_panel(p: DiffPanelViewModel, relative_path: Seq<char>, reason: Seq<char>) -> bool {
    &&& p.relative_path@ == relative_path
    &&& p.summary_text@ == "single-side preview unavailable"@
    &&& p.hunks@.len() == 1
    &&& p.hunks@[0].old_start == 1 && p.hunks@[0].old_len == 1
    &&& p.hunks@[0].new_start == 1 && p.hunks@[0].new_len == 1
    &&& p.hunks@[0].lines@.len() == 1
    &&& p.hunks@[0].lines@[0].old_line_no is None
    &&& p.hunks@[0].lines@[0].new_line_no is None
    &&& p.hunks@[0].lines@[0].kind@ == "Context"@
    &&& p.hunks@[0].lines@[0].content@ == "[preview unavailable] "@ + reason
    &&& opt_view(p.warning) == Some(reason)
    &&& !p.truncated
}

/// A panel that says why the single-side preview is unavailable.
pub fn build_single_side_unavailable_panel(relative_path: &str, reason: &str) -> (r: DiffPanelViewModel)
    ensures
        unavailable_panel(r, relative_path@, reason@),
{
    let mut content = chars_of("[preview unavailable] ");
    push_str(&mut content, reason);
    let line = DiffLineViewModel {
        old_line_no: None,
        new_line_no: None,
        kind: text::to_string("Context"),
        content: string_from_chars(&content),
    };
    let hunk = DiffHunkViewModel {
        old_start: 1,
        old_len: 1,
        new_start: 1,
        new_len: 1,
        lines: vec![line],
    };
    DiffPanelViewModel {
        relative_path: text::to_string(relative_path),
        summary_text: text::to_string("single-side preview unavailable"),
        hunks: vec![hunk],
        warning: Some(text::to_string(reason)),
        truncated: false,
    }
}

pub const SINGLE_SIDE_PREVIEW_MAX_BYTES: usize = 524288;

pub const SINGLE_SIDE_PREVIEW_MAX_LINES: usize = 1600;

/// Which side a single-side preview shows, and which line numbers it carries.
#[derive(Debug, Clone, Copy, PartialEq, Eq, Structural)]
pub enum PreviewSide {
    Left,
    Right,
    Both,
}

pub open spec fn side_label_of(side: PreviewSide) -> Seq<char> {
    match side {
        PreviewSide::Left => "left-only"@,
        PreviewSide::Right => "right-only"@,
        PreviewSide::Both => "equal"@,
    }
}

impl PreviewSide {
    /// The status label of the side.
    pub fn label(self) -> (r: &'static str)
        ensures
            r@ == side_label_of(self),
    {
        match self {
            PreviewSide::Left => "left-only",
            PreviewSide::Right => "right-only",
            PreviewSide::Both => "equal",
        }
    }
}

/// The side a compare row's preview shows, by its status; `None` when it has none.
pub fn single_side_preview_side(status: &str) -> (r: Option<PreviewSide>)
    ensures
        r == (if status@ == "left-only"@ {
            Some(PreviewSide::Left)
        } else if status@ == "right-only"@ {
            Some(PreviewSide::Right)
        } else if status@ == "equal"@ {
            Some(PreviewSide::Both)
        } else {
            None
        }),
{
    if text::str_eq(status, "left-only") {
        Some(PreviewSide::Left)
    } else if text::str_eq(status, "right-only") {
        Some(PreviewSide::Right)
    } else if text::str_eq(status, "equal") {
        Some(PreviewSide::Both)
    } else {
        None
    }
}

/// The reason shown for a row without a single-side preview.
pub fn preview_not_available_reason() -> (r: &'static str)
    ensures
        r@ == "preview is only available for left-only/right-only/equal entries"@,
{
    "preview is only available for left-only/right-only/equal entries"
}

/// The panel for a previewed file that cannot be read.
pub fn single_side_read_failure_panel(relative_path: &str, side: PreviewSide, path_text: &str) -> (r:
    DiffPanelViewModel)
    ensures
        unavailable_panel(
            r,
            relative_path@,
            "cannot read file for "@ + side_label_of(side) + " preview: "@ + path_text@,
        ),
{
    let mut m = chars_of("cannot read file for ");
    push_str(&mut m, side.label());
    push_str(&mut m, " preview: ");
    push_str(&mut m, path_text);
    let reason = string_from_chars(&m);
    let r = build_single_side_unavailable_panel(relative_path, reason.as_str());
    assert(r.hunks@[0].lines@[0].content@ =~= "[preview unavailable] "@ + ("cannot read file for "@
        + side_label_of(side) + " preview: "@ + path_text@));
    r
}

/// A line without the `\r` that ended it.
pub open spec fn strip_cr(p: Seq<char>) -> Seq<char> {
    if p.len() > 0 && p.last() == '\r' {
        p.drop_last()
    } else {
        p
    }
}

/// What `str::lines` gives: the pieces between `\n`, each without a `\r`
/// just before its `\n`, and no empty piece after a final `\n`.
pub open spec fn str_lines(s: Seq<char>) -> Seq<Seq<char>> {
    if s.len() == 0 {
        Seq::empty()
    } else {
        let parts = text::split_by(s, '\n');
        let ended = parts.drop_last().map_values(|p: Seq<char>| strip_cr(p));
        if s.last() == '\n' {
            ended
        } else {
            ended.push(parts.last())
        }
    }
}

/// The lines of a text as `str::lines` gives them.
pub fn text_lines_of(t: &str) -> (r: Vec<Vec<char>>)
    ensures
        r@.map_values(|l: Vec<char>| l@) == str_lines(t@),
{
    let v = chars_of(t);
    let mut r: Vec<Vec<char>> = Vec::new();
    if v.len() == 0 {
        assert(r@.map_values(|l: Vec<char>| l@) =~= str_lines(t@));
        return r;
    }
    let pieces = text::split_chars(&v, '\n');
    let ghost parts = text::split_by(v@, '\n');
    proof {
        text::lemma_split_nonempty(v@, '\n');
    }
    let n = pieces.len();
    for i in 0..n - 1
        invariant
            n == pieces@.len() == parts.len(),
            n >= 1,
            forall|k: int| 0 <= k < n ==> #[trigger] pieces@[k]@ == parts[k],
            r@.map_values(|l: Vec<char>| l@) == parts.drop_last().take(i as int).map_values(
                |p: Seq<char>| strip_cr(p),
            ),
    {
        let p = &pieces[i];
        let l = if p.len() > 0 && p[p.len() - 1] == '\r' {
            text::slice_chars(p, 0, p.len() - 1)
        } else {
            text::slice_chars(p, 0, p.len())
        };
        proof {
            assert(p@.subrange(0, p@.len() - 1) =~= p@.drop_last());
            assert(p@.subrange(0, p@.len() as int) =~= p@);
        }
        let ghost before = r@.map_values(|l: Vec<char>| l@);
        r.push(l);
        proof {
            assert(r@.map_values(|l: Vec<char>| l@) =~= before.push(strip_cr(parts[i as int])));
            assert(parts.drop_last().take(i + 1) =~= parts.drop_last().take(i as int).push(parts[i as int]));
        }
    }
    proof {
        assert(parts.drop_last().take(n - 1) =~= parts.drop_last());
    }
    if v[v.len() - 1] != '\n' {
        let ghost before = r@.map_values(|l: Vec<char>| l@);
        let last = text::slice_chars(&pieces[n - 1], 0, pieces[n - 1].len());
        r.push(last);
        proof {
            assert(pieces@[n - 1]@.subrange(0, pieces@[n - 1]@.len() as int) =~= pieces@[n - 1]@);
            assert(r@.map_values(|l: Vec<char>| l@) =~= before.push(parts.last()));
        }
    }
    r
}

pub open spec fn shows_left(side: PreviewSide) -> bool {
    side == PreviewSide::Left || side == PreviewSide::Both
}

pub open spec fn shows_right(side: PreviewSide) -> bool {
    side == PreviewSide::Right || side == PreviewSide::Both
}

/// `p` previews `lines` of a side: one hunk from line 1, each line numbered
/// on the sides it is shown on.
pub open spec fn preview_panel_of(
    p: DiffPanelViewModel,
    relative_path: Seq<char>,
    side: PreviewSide,
    lines: Seq<Seq<char>>,
    truncated: bool,
    warning: Option<Seq<char>>,
) -> bool {
    &&& p.relative_path@ == relative_path
    &&& p.summary_text@ == side_label_of(side) + " preview lines="@ + text::dec(lines.len()) + if truncated {
        " (truncated)"@
    } else {
        Seq::empty()
    }
    &&& p.hunks@.len() == 1
    &&& p.hunks@[0].old_start == 1
    &&& p.hunks@[0].new_start == 1
    &&& p.hunks@[0].old_len == if shows_left(side) {
        lines.len()
    } else {
        0
    }
    &&& p.hunks@[0].new_len == if shows_right(side) {
        lines.len()
    } else {
        0
    }
    &&& p.hunks@[0].lines@.len() == lines.len()
    &&& forall|i: int|
        0 <= i < lines.len() ==> {
            let l = #[trigger] p.hunks@[0].lines@[i];
            &&& l.old_line_no == if shows_left(side) {
                Some((i + 1) as usize)
            } else {
                None
            }
            &&& l.new_line_no == if shows_right(side) {
                Some((i + 1) as usize)
            } else {
                None
            }
            &&& l.kind@ == "Context"@
            &&& l.content@ == lines[i]
        }
    &&& opt_view(p.warning) == warning
    &&& p.truncated == truncated
}

/// What `single_side_preview_panel` shows for the bytes of a file.
pub open spec fn single_side_preview_ok(
    p: DiffPanelViewModel,
    relative_path: Seq<char>,
    side: PreviewSide,
    bytes: Seq<u8>,
) -> bool {
    let lbl = side_label_of(side);
    let big = bytes.len() > SINGLE_SIDE_PREVIEW_MAX_BYTES;
    let pb = if big {
        bytes.take(SINGLE_SIDE_PREVIEW_MAX_BYTES as int)
    } else {
        bytes
    };
    if bytes.contains(0u8) {
        unavailable_panel(
            p,
            relative_path,
            lbl + " preview unavailable: binary content is not supported in this viewer"@,
        )
    } else if !vstd::utf8::valid_utf8(pb) {
        unavailable_panel(
            p,
            relative_path,
            lbl + " preview unavailable: text preview currently supports UTF-8 files only"@,
        )
    } else {
        let ls = str_lines(vstd::utf8::decode_utf8(pb));
        let many = ls.len() > SINGLE_SIDE_PREVIEW_MAX_LINES;
        let shown = if many {
            ls.take(SINGLE_SIDE_PREVIEW_MAX_LINES as int)
        } else {
            ls
        };
        let warning = if many {
            Some(lbl + " preview truncated to 1600 lines"@)
        } else if big {
            Some(lbl + " preview truncated to 512 KB"@)
        } else {
            None
        };
        preview_panel_of(p, relative_path, side, shown, big || many, warning)
    }
}

/// The single-side preview of a file's bytes: none for binary content or
/// text that is not UTF-8; otherwise at most the first 512 KB and 1600 lines,
/// with a warning when cut.
pub fn single_side_preview_panel(relative_path: &str, side: PreviewSide, bytes: &[u8]) -> (r:
    DiffPanelViewModel)
    ensures
        single_side_preview_ok(r, relative_path@, side, bytes@),
{
    let lbl = side.label();
    let mut k: usize = 0;
    while k < bytes.len()
        invariant
            lbl@ == side_label_of(side),
            k <= bytes@.len(),
            forall|q: int| 0 <= q < k ==> bytes@[q] != 0u8,
        decreases bytes@.len() - k,
    {
        if bytes[k] == 0u8 {
            assert(bytes@.contains(0u8)) by {
                assert(bytes@[k as int] == 0u8);
            }
            let mut m = chars_of(lbl);
            push_str(&mut m, " preview unavailable: binary content is not supported in this viewer");
            let reason = string_from_chars(&m);
            let r = build_single_side_unavailable_panel(relative_path, reason.as_str());
            assert(r.hunks@[0].lines@[0].content@ =~= "[preview unavailable] "@ + (side_label_of(side)
                + " preview unavailable: binary content is not supported in this viewer"@));
            return r;
        }
        k = k + 1;
    }
    let mut truncated = false;
    let mut warning: Option<String> = None;
    let big = bytes.len() > SINGLE_SIDE_PREVIEW_MAX_BYTES;
    let n = if big {
        SINGLE_SIDE_PREVIEW_MAX_BYTES
    } else {
        bytes.len()
    };
    let mut preview: Vec<u8> = Vec::new();
    for i in 0..n
        invariant
            n <= bytes@.len(),
            preview@ == bytes@.take(i as int),
    {
        preview.push(bytes[i]);
        assert(bytes@.take(i + 1) =~= bytes@.take(i as int).push(bytes@[i as int]));
    }
    proof {
        assert(bytes@.take(bytes@.len() as int) =~= bytes@);
    }
    if big {
        truncated = true;
        let mut w = chars_of(lbl);
        push_str(&mut w, " preview truncated to 512 KB");
        warning = Some(string_from_chars(&w));
    }
    let t = match crate::compare_file::utf8_text(&preview) {
        Ok(t) => t,
        Err(_) => {
            let mut m = chars_of(lbl);
            push_str(&mut m, " preview unavailable: text preview currently supports UTF-8 files only");
            let reason = string_from_chars(&m);
            let r = build_single_side_unavailable_panel(relative_path, reason.as_str());
            assert(r.hunks@[0].lines@[0].content@ =~= "[preview unavailable] "@ + (side_label_of(side)
                + " preview unavailable: text preview currently supports UTF-8 files only"@));
            return r;
        },
    };
    let mut lines = text_lines_of(t.as_str());
    let ghost ls = lines@.map_values(|l: Vec<char>| l@);
    if lines.len() > SINGLE_SIDE_PREVIEW_MAX_LINES {
        lines.truncate(SINGLE_SIDE_PREVIEW_MAX_LINES);
        truncated = true;
        let mut w = chars_of(lbl);
        push_str(&mut w, " preview truncated to 1600 lines");
        warning = Some(string_from_chars(&w));
        proof {
            assert(lines@.map_values(|l: Vec<char>| l@) =~= ls.take(SINGLE_SIDE_PREVIEW_MAX_LINES as int));
        }
    }
    let left = side == PreviewSide::Left || side == PreviewSide::Both;
    let right = side == PreviewSide::Right || side == PreviewSide::Both;
    let ghost shown = lines@.map_values(|l: Vec<char>| l@);
    let mut vms: Vec<DiffLineViewModel> = Vec::new();
    for i in 0..lines.len()
        invariant
            shown == lines@.map_values(|l: Vec<char>| l@),
            left == shows_left(side),
            right == shows_right(side),
            vms@.len() == i,
            forall|q: int|
                0 <= q < i ==> {
                    let l = #[trigger] vms@[q];
                    &&& l.old_line_no == if left {
                        Some((q + 1) as usize)
                    } else {
                        None
                    }
                    &&& l.new_line_no == if right {
                        Some((q + 1) as usize)
                    } else {
                        None
                    }
                    &&& l.kind@ == "Context"@
                    &&& l.content@ == shown[q]
                },
    {
        vms.push(
            DiffLineViewModel {
                old_line_no: if left {
                    Some(i + 1)
                } else {
                    None
                },
                new_line_no: if right {
                    Some(i + 1)
                } else {
                    None
                },
                kind: text::to_string("Context"),
                content: string_from_chars(&lines[i]),
            },
        );
    }
    let count = vms.len();
    let old_len = if left {
        count
    } else {
        0
    };
    let new_len = if right {
        count
    } else {
        0
    };
    let mut st = chars_of(lbl);
    push_str(&mut st, " preview lines=");
    push_dec_usize(&mut st, count);
    if truncated {
        push_str(&mut st, " (truncated)");
    }
    let hunk = DiffHunkViewModel { old_start: 1, old_len, new_start: 1, new_len, lines: vms };
    let r = DiffPanelViewModel {
        relative_path: text::to_string(relative_path),
        summary_text: string_from_chars(&st),
        hunks: vec![hunk],
        warning,
        truncated,
    };
    proof {
        assert(preview@ == (if big { bytes@.take(SINGLE_SIDE_PREVIEW_MAX_BYTES as int) } else { bytes@ }));
    }
    r
}

// ---------------------------------------------------------------------------
// AI analysis
// ---------------------------------------------------------------------------

/// Which AI provider runs an analysis.
#[derive(Debug, Clone, Copy, PartialEq, Eq, Structural)]
pub enum AiProviderKind {
    Mock,
    OpenAiCompatible,
}

/// Provider settings of an analysis.
#[derive(Debug, Clone, PartialEq, Eq)]
pub struct AiConfig {
    pub provider_kind: AiProviderKind,
    pub openai_endpoint: Option<String>,
    pub openai_api_key: Option<String>,
    pub openai_model: Option<String>,
}

/// What an analysis is asked to do.
#[derive(Debug, Clone, Copy, PartialEq, Eq, Structural)]
pub enum AnalysisTask {
    RiskReview,
}

/// A request to analyze one file's diff.
#[derive(Debug, Clone, PartialEq, Eq)]
pub struct AnalyzeDiffRequest {
    pub task: AnalysisTask,
    pub relative_path: Option<String>,
    pub language_hint: Option<String>,
    pub diff_excerpt: String,
    pub summary: Option<TextDiffSummary>,
    pub truncation_note: Option<String>,
    pub config: AiConfig,
}

/// Risk that an analysis assigns.
#[derive(Debug, Clone, Copy, PartialEq, Eq, Structural)]
pub enum RiskLevel {
    Low,
    Medium,
    High,
}

/// The answer of an analysis.
#[derive(Debug, Clone, PartialEq, Eq)]
pub struct AnalyzeDiffResponse {
    pub title: String,
    pub risk_level: RiskLevel,
    pub rationale: String,
    pub key_points: Vec<String>,
    pub review_suggestions: Vec<String>,
}

/// The trimmed text of an optional value, `None` when absent or blank.
pub open spec fn norm_opt(raw: Option<Seq<char>>) -> Option<Seq<char>> {
    match raw {
        Some(v) => if trim(v).len() > 0 {
            Some(trim(v))
        } else {
            None
        },
        None => None,
    }
}

/// The trimmed text of an optional value, `None` when absent or blank.
pub fn normalize_optional_text(raw: Option<String>) -> (r: Option<String>)
    ensures
        opt_view(r) == norm_opt(opt_view(raw)),
{
    match raw {
        Some(value) => {
            let t = text::trim_str(value.as_str());
            if t.as_str().unicode_len() > 0 {
                Some(t)
            } else {
                None
            }
        },
        None => None,
    }
}

pub open spec fn risk_text(level: RiskLevel) -> Seq<char> {
    match level {
        RiskLevel::Low => "low"@,
        RiskLevel::Medium => "medium"@,
        RiskLevel::High => "high"@,
    }
}

/// The name of a risk level.
pub fn ai_risk_level_text(level: RiskLevel) -> (r: &'static str)
    ensures
        r@ == risk_text(level),
{
    match level {
        RiskLevel::Low => "low",
        RiskLevel::Medium => "medium",
        RiskLevel::High => "high",
    }
}

/// The analysis panel of a response.
pub fn map_analyze_diff_response(response: AnalyzeDiffResponse) -> (r: AnalysisResultViewModel)
    ensures
        r.title == response.title,
        r.risk_level@ == risk_text(response.risk_level),
        r.rationale == response.rationale,
        r.key_points == response.key_points,
        r.review_suggestions == response.review_suggestions,
{
    AnalysisResultViewModel {
        title: response.title,
        risk_level: text::to_string(ai_risk_level_text(response.risk_level)),
        rationale: response.rationale,
        key_points: response.key_points,
        review_suggestions: response.review_suggestions,
    }
}

/// The lines of the excerpt of the first `n` hunks: each hunk's header, then
/// each line with its marker.
pub open spec fn excerpt_lines(hunks: Seq<DiffHunkViewModel>, n: int) -> Seq<Seq<char>>
    decreases n,
{
    if n <= 0 {
        Seq::empty()
    } else {
        let h = hunks[n - 1];
        excerpt_lines(hunks, n - 1) + seq![crate::view_models::hunk_header(h)] + h.lines@.map_values(
            |l: DiffLineViewModel| crate::view_models::line_marker(l.kind@) + l.content@,
        )
    }
}

/// The unified-diff text of a panel: hunk headers and marked lines, one per line.
pub fn build_diff_excerpt(diff: &DiffPanelViewModel) -> (r: String)
    ensures
        r@ == text::join_seq(excerpt_lines(diff.hunks@, diff.hunks@.len() as int), "\n"@),
{
    let mut out: Vec<Vec<char>> = Vec::new();
    for h in 0..diff.hunks.len()
        invariant
            out@.map_values(|p: Vec<char>| p@) == excerpt_lines(diff.hunks@, h as int),
    {
        let hunk = &diff.hunks[h];
        let ghost before = out@.map_values(|p: Vec<char>| p@);
        out.push(chars_of(hunk.header().as_str()));
        let ghost mid = out@.map_values(|p: Vec<char>| p@);
        proof {
            assert(mid =~= before + seq![crate::view_models::hunk_header(*hunk)]);
        }
        for k in 0..hunk.lines.len()
            invariant
                out@.map_values(|p: Vec<char>| p@) == mid + hunk.lines@.take(k as int).map_values(
                    |l: DiffLineViewModel| crate::view_models::line_marker(l.kind@) + l.content@,
                ),
        {
            let line = &hunk.lines[k];
            let mut piece = chars_of(line.marker());
            push_str(&mut piece, line.content.as_str());
            let ghost b2 = out@.map_values(|p: Vec<char>| p@);
            out.push(piece);
            proof {
                assert(hunk.lines@.take(k + 1) =~= hunk.lines@.take(k as int).push(hunk.lines@[k as int]));
                assert(hunk.lines@.take(k + 1).map_values(
                    |l: DiffLineViewModel| crate::view_models::line_marker(l.kind@) + l.content@,
                ) =~= hunk.lines@.take(k as int).map_values(
                    |l: DiffLineViewModel| crate::view_models::line_marker(l.kind@) + l.content@,
                ).push(crate::view_models::line_marker(line.kind@) + line.content@));
                assert(out@.map_values(|p: Vec<char>| p@) =~= b2.push(piece@));
                assert(out@.map_values(|p: Vec<char>| p@) =~= mid + hunk.lines@.take(k + 1).map_values(
                    |l: DiffLineViewModel| crate::view_models::line_marker(l.kind@) + l.content@,
                ));
            }
        }
        proof {
            assert(hunk.lines@.take(hunk.lines@.len() as int) =~= hunk.lines@);
            assert(out@.map_values(|p: Vec<char>| p@) =~= excerpt_lines(diff.hunks@, h + 1));
        }
    }
    let sep = chars_of("\n");
    let joined = text::join_chars(&out, &sep);
    string_from_chars(&joined)
}

/// Counts of the lines of the first `n` hunks by tag: added, removed, other.
pub open spec fn tag_counts(hunks: Seq<DiffHunkViewModel>, n: int) -> (int, int, int)
    decreases n,
{
    if n <= 0 {
        (0, 0, 0)
    } else {
        let (a, r, c) = tag_counts(hunks, n - 1);
        let (a2, r2, c2) = line_tag_counts(hunks[n - 1].lines@, hunks[n - 1].lines@.len() as int);
        (a + a2, r + r2, c + c2)
    }
}

/// Counts of the first `n` lines by tag: added, removed, other.
pub open spec fn line_tag_counts(lines: Seq<DiffLineViewModel>, n: int) -> (int, int, int)
    decreases n,
{
    if n <= 0 {
        (0, 0, 0)
    } else {
        let (a, r, c) = line_tag_counts(lines, n - 1);
        let t = crate::view_models::line_kind_tag(lines[n - 1].kind@);
        if t == "added"@ {
            (a + 1, r, c)
        } else if t == "removed"@ {
            (a, r + 1, c)
        } else {
            (a, r, c + 1)
        }
    }
}

/// Number of lines of the first `n` hunks.
pub open spec fn total_lines(hunks: Seq<DiffHunkViewModel>, n: int) -> int
    decreases n,
{
    if n <= 0 {
        0
    } else {
        total_lines(hunks, n - 1) + hunks[n - 1].lines@.len()
    }
}

proof fn lemma_line_counts_sum(lines: Seq<DiffLineViewModel>, n: int)
    requires
        0 <= n <= lines.len(),
    ensures
        ({
            let (a, r, c) = line_tag_counts(lines, n);
            a >= 0 && r >= 0 && c >= 0 && a + r + c == n
        }),
    decreases n,
{
    if n > 0 {
        lemma_line_counts_sum(lines, n - 1);
    }
}

/// The line counts of a diff panel, by line kind.
pub fn build_diff_summary(diff: &DiffPanelViewModel) -> (r: TextDiffSummary)
    requires
        total_lines(diff.hunks@, diff.hunks@.len() as int) <= usize::MAX,
    ensures
        r.hunk_count == diff.hunks@.len(),
        (r.added_lines as int, r.removed_lines as int, r.context_lines as int) == tag_counts(
            diff.hunks@,
            diff.hunks@.len() as int,
        ),
{
    let mut added: usize = 0;
    let mut removed: usize = 0;
    let mut context: usize = 0;
    for h in 0..diff.hunks.len()
        invariant
            total_lines(diff.hunks@, diff.hunks@.len() as int) <= usize::MAX,
            (added as int, removed as int, context as int) == tag_counts(diff.hunks@, h as int),
            added + removed + context == total_lines(diff.hunks@, h as int),
    {
        let hunk = &diff.hunks[h];
        proof {
            lemma_total_lines_mono(diff.hunks@, h + 1, diff.hunks@.len() as int);
        }
        let ghost a0 = added as int;
        let ghost r0 = removed as int;
        let ghost c0 = context as int;
        for k in 0..hunk.lines.len()
            invariant
                added + removed + context == total_lines(diff.hunks@, h as int) + k,
                total_lines(diff.hunks@, h + 1) <= usize::MAX,
                total_lines(diff.hunks@, h + 1) == total_lines(diff.hunks@, h as int) + hunk.lines@.len(),
                ({
                    let (a, r, c) = line_tag_counts(hunk.lines@, k as int);
                    added == a0 + a && removed == r0 + r && context == c0 + c
                }),
        {
            let tag = hunk.lines[k].kind_tag();
            if text::str_eq(tag, "added") {
                added = added + 1;
            } else if text::str_eq(tag, "removed") {
                removed = removed + 1;
            } else {
                context = context + 1;
            }
        }
    }
    TextDiffSummary {
        hunk_count: diff.hunks.len(),
        added_lines: added,
        removed_lines: removed,
        context_lines: context,
    }
}

proof fn lemma_total_lines_mono(hunks: Seq<DiffHunkViewModel>, a: int, b: int)
    requires
        0 <= a <= b,
    ensures
        total_lines(hunks, a) <= total_lines(hunks, b),
    decreases b - a,
{
    if a < b {
        lemma_total_lines_mono(hunks, a, b - 1);
    }
}

/// The language of a lower-case file extension.
pub open spec fn lang_of(ext: Seq<char>) -> Option<Seq<char>> {
    if ext == "rs"@ {
        Some("rust"@)
    } else if ext == "py"@ {
        Some("python"@)
    } else if ext == "js"@ {
        Some("javascript"@)
    } else if ext == "ts"@ {
        Some("typescript"@)
    } else if ext == "tsx"@ {
        Some("tsx"@)
    } else if ext == "jsx"@ {
        Some("jsx"@)
    } else if ext == "go"@ {
        Some("go"@)
    } else if ext == "java"@ {
        Some("java"@)
    } else if ext == "kt"@ {
        Some("kotlin"@)
    } else if ext == "swift"@ {
        Some("swift"@)
    } else if ext == "rb"@ {
        Some("ruby"@)
    } else if ext == "php"@ {
        Some("php"@)
    } else if ext == "c"@ {
        Some("c"@)
    } else if ext == "h"@ {
        Some("c-header"@)
    } else if ext == "cc"@ {
        Some("cpp"@)
    } else if ext == "cpp"@ {
        Some("cpp"@)
    } else if ext == "cxx"@ {
        Some("cpp"@)
    } else if ext == "hpp"@ {
        Some("cpp"@)
    } else if ext == "cs"@ {
        Some("csharp"@)
    } else if ext == "lua"@ {
        Some("lua"@)
    } else if ext == "sh"@ {
        Some("shell"@)
    } else if ext == "ps1"@ {
        Some("powershell"@)
    } else if ext == "json"@ {
        Some("json"@)
    } else if ext == "toml"@ {
        Some("toml"@)
    } else if ext == "yaml"@ {
        Some("yaml"@)
    } else if ext == "yml"@ {
        Some("yaml"@)
    } else if ext == "md"@ {
        Some("markdown"@)
    } else if ext == "xml"@ {
        Some("xml"@)
    } else if ext == "html"@ {
        Some("html"@)
    } else if ext == "htm"@ {
        Some("html"@)
    } else if ext == "css"@ {
        Some("css"@)
    } else if ext == "sql"@ {
        Some("sql"@)
    } else {
        None
    }
}

/// The language of a file extension, by its ASCII lower case.
pub fn language_for_extension(extension: &str) -> (r: Option<String>)
    ensures
        opt_view(r) == lang_of(text::lower_seq(extension@)),
{
    let e = text::lower_chars(&chars_of(extension));
    if text::chars_eq_str(&e, "rs") {
        Some(text::to_string("rust"))
    } else if text::chars_eq_str(&e, "py") {
        Some(text::to_string("python"))
    } else if text::chars_eq_str(&e, "js") {
        Some(text::to_string("javascript"))
    } else if text::chars_eq_str(&e, "ts") {
        Some(text::to_string("typescript"))
    } else if text::chars_eq_str(&e, "tsx") {
        Some(text::to_string("tsx"))
    } else if text::chars_eq_str(&e, "jsx") {
        Some(text::to_string("jsx"))
    } else if text::chars_eq_str(&e, "go") {
        Some(text::to_string("go"))
    } else if text::chars_eq_str(&e, "java") {
        Some(text::to_string("java"))
    } else if text::chars_eq_str(&e, "kt") {
        Some(text::to_string("kotlin"))
    } else if text::chars_eq_str(&e, "swift") {
        Some(text::to_string("swift"))
    } else if text::chars_eq_str(&e, "rb") {
        Some(text::to_string("ruby"))
    } else if text::chars_eq_str(&e, "php") {
        Some(text::to_string("php"))
    } else if text::chars_eq_str(&e, "c") {
        Some(text::to_string("c"))
    } else if text::chars_eq_str(&e, "h") {
        Some(text::to_string("c-header"))
    } else if text::chars_eq_str(&e, "cc") {
        Some(text::to_string("cpp"))
    } else if text::chars_eq_str(&e, "cpp") {
        Some(text::to_string("cpp"))
    } else if text::chars_eq_str(&e, "cxx") {
        Some(text::to_string("cpp"))
    } else if text::chars_eq_str(&e, "hpp") {
        Some(text::to_string("cpp"))
    } else if text::chars_eq_str(&e, "cs") {
        Some(text::to_string("csharp"))
    } else if text::chars_eq_str(&e, "lua") {
        Some(text::to_string("lua"))
    } else if text::chars_eq_str(&e, "sh") {
        Some(text::to_string("shell"))
    } else if text::chars_eq_str(&e, "ps1") {
        Some(text::to_string("powershell"))
    } else if text::chars_eq_str(&e, "json") {
        Some(text::to_string("json"))
    } else if text::chars_eq_str(&e, "toml") {
        Some(text::to_string("toml"))
    } else if text::chars_eq_str(&e, "yaml") {
        Some(text::to_string("yaml"))
    } else if text::chars_eq_str(&e, "yml") {
        Some(text::to_string("yaml"))
    } else if text::chars_eq_str(&e, "md") {
        Some(text::to_string("markdown"))
    } else if text::chars_eq_str(&e, "xml") {
        Some(text::to_string("xml"))
    } else if text::chars_eq_str(&e, "html") {
        Some(text::to_string("html"))
    } else if text::chars_eq_str(&e, "htm") {
        Some(text::to_string("html"))
    } else if text::chars_eq_str(&e, "css") {
        Some(text::to_string("css"))
    } else if text::chars_eq_str(&e, "sql") {
        Some(text::to_string("sql"))
    } else {
        None
    }
}

/// Index of the last `.` of a name.
pub open spec fn last_dot(name: Seq<char>) -> Option<int>
    decreases name.len(),
{
    if name.len() == 0 {
        None
    } else if name.last() == '.' {
        Some(name.len() - 1)
    } else {
        last_dot(name.drop_last())
    }
}

/// The extension of a file name: what follows its last `.`; none without a
/// `.`, or when the only `.` starts the name.
pub open spec fn name_extension(name: Seq<char>) -> Option<Seq<char>> {
    match last_dot(name) {
        None => None,
        Some(i) => if i == 0 {
            None
        } else {
            Some(name.skip(i + 1))
        },
    }
}

/// A relative path that reads the same under every platform's path rules:
/// `/` as its only separator, no `\\`, no `:`, not starting with `/`.
pub open spec fn plain_relative(p: Seq<char>) -> bool {
    !p.contains('\\') && !p.contains(':') && !(p.len() > 0 && p[0] == '/')
}

/// The file name of a plain relative path: its last component other than
/// empty ones and `.`, unless that is `..`.
pub open spec fn plain_file_name(p: Seq<char>) -> Option<Seq<char>> {
    let comps = text::split_by(p, '/').filter(|c: Seq<char>| c.len() > 0 && c != "."@);
    if comps.len() == 0 || comps.last() == ".."@ {
        None
    } else {
        Some(comps.last())
    }
}

/// The extension of a plain relative path.
pub open spec fn plain_extension(p: Seq<char>) -> Option<Seq<char>> {
    match plain_file_name(p) {
        Some(n) => name_extension(n),
        None => None,
    }
}

/// `std::path::Path::extension`, as text.
///
/// For a plain relative path the result is what std documents: the part of
/// the file name after its last `.`, none when the name has no `.` or only a
/// leading one. For other paths (backslashes, drive or UNC prefixes, roots)
/// the platform's rules decide which part is the file name; there the
/// contract says only that an extension holds no `.` and follows a `.` in the
/// path.
#[verifier::external_body]
fn path_extension(path: &str) -> (r: Option<String>)
    ensures
        r matches Some(e) ==> !e@.contains('.') && text::contains_seq(path@, seq!['.'] + e@),
        plain_relative(path@) ==> opt_view(r) == plain_extension(path@),
{
    match std::path::Path::new(path).extension() {
        Some(e) => match e.to_str() {
            Some(t) => Some(t.to_string()),
            None => None,
        },
        None => None,
    }
}

/// The language of a file by its extension, if known.
pub fn infer_language_hint(relative_path: &str) -> (r: Option<String>)
    ensures
        r matches Some(l) ==> exists|e: Seq<char>|
            !e.contains('.') && text::contains_seq(relative_path@, seq!['.'] + e) && lang_of(
                text::lower_seq(e),
            ) == Some(l@),
        plain_relative(relative_path@) ==> opt_view(r) == match plain_extension(relative_path@) {
            Some(e) => lang_of(text::lower_seq(e)),
            None => None,
        },
{
    match path_extension(relative_path) {
        Some(e) => language_for_extension(e.as_str()),
        None => None,
    }
}

/// Whether an optional setting is absent or blank.
pub open spec fn blank_opt(o: Option<Seq<char>>) -> bool {
    match o {
        Some(v) => trim(v).len() == 0,
        None => true,
    }
}

fn is_blank_opt(o: &Option<String>) -> (r: bool)
    ensures
        r == blank_opt(opt_view(*o)),
{
    match o {
        Some(v) => text::is_blank(v.as_str()),
        None => true,
    }
}

/// Why an analysis cannot be requested, checked in this order; `None` when it can.
pub open spec fn analysis_refusal(
    can_load_analysis: bool,
    blocked_reason: Option<Seq<char>>,
    hunk_count: int,
    excerpt: Seq<char>,
    config: AiConfig,
) -> Option<Seq<char>> {
    if !can_load_analysis {
        Some(
            match blocked_reason {
                Some(r) => r,
                None => "selected row does not support AI analysis"@,
            },
        )
    } else if hunk_count == 0 {
        Some("load detailed diff before running AI analysis"@)
    } else if trim(excerpt).len() == 0 {
        Some("detailed diff excerpt is empty, cannot run AI analysis"@)
    } else if config.provider_kind == AiProviderKind::OpenAiCompatible && blank_opt(opt_view(config.openai_endpoint)) {
        Some("remote provider endpoint is required for OpenAI-compatible mode"@)
    } else if config.provider_kind == AiProviderKind::OpenAiCompatible && blank_opt(opt_view(config.openai_api_key)) {
        Some("remote provider api key is required for OpenAI-compatible mode"@)
    } else if config.provider_kind == AiProviderKind::OpenAiCompatible && blank_opt(opt_view(config.openai_model)) {
        Some("remote provider model is required for OpenAI-compatible mode"@)
    } else {
        None
    }
}

/// The notes on a diff's completeness: truncation, then its non-blank warning.
pub open spec fn diff_notes(truncated: bool, warning: Option<Seq<char>>) -> Seq<Seq<char>> {
    (if truncated {
        seq!["detailed diff output is truncated"@]
    } else {
        Seq::empty()
    }) + match warning {
        Some(w) => if trim(w).len() > 0 {
            seq![trim(w)]
        } else {
            Seq::empty()
        },
        None => Seq::empty(),
    }
}

pub open spec fn opt_str_view(o: Option<&str>) -> Option<Seq<char>> {
    match o {
        Some(s) => Some(s@),
        None => None,
    }
}

/// The analysis request for a compare row and its loaded diff.
pub fn build_analyze_diff_request(
    row: &CompareEntryRowViewModel,
    diff: &DiffPanelViewModel,
    diff_warning: Option<&str>,
    diff_truncated: bool,
    config: AiConfig,
) -> (r: Result<AnalyzeDiffRequest, String>)
    requires
        total_lines(diff.hunks@, diff.hunks@.len() as int) <= usize::MAX,
    ensures
        ({
            let excerpt = text::join_seq(excerpt_lines(diff.hunks@, diff.hunks@.len() as int), "\n"@);
            match analysis_refusal(row.can_load_analysis, opt_view(row.analysis_blocked_reason), diff.hunks@.len() as int, excerpt, config) {
                Some(m) => r matches Err(e) && e@ == m,
                None => r matches Ok(q) && {
                    let notes = diff_notes(diff_truncated, opt_str_view(diff_warning));
                    &&& q.task == AnalysisTask::RiskReview
                    &&& opt_view(q.relative_path) == Some(row.relative_path@)
                    &&& (q.language_hint matches Some(l) ==> exists|e: Seq<char>|
                        !e.contains('.') && text::contains_seq(row.relative_path@, seq!['.'] + e)
                            && lang_of(text::lower_seq(e)) == Some(l@))
                    &&& (plain_relative(row.relative_path@) ==> opt_view(q.language_hint)
                        == match plain_extension(row.relative_path@) {
                        Some(e) => lang_of(text::lower_seq(e)),
                        None => None,
                    })
                    &&& q.diff_excerpt@ == excerpt
                    &&& q.summary matches Some(s) && s.hunk_count == diff.hunks@.len()
                        && (s.added_lines as int, s.removed_lines as int, s.context_lines as int)
                        == tag_counts(diff.hunks@, diff.hunks@.len() as int)
                    &&& opt_view(q.truncation_note) == if notes.len() == 0 {
                        None
                    } else {
                        Some(text::join_seq(notes, "; "@))
                    }
                    &&& q.config.provider_kind == config.provider_kind
                    &&& opt_view(q.config.openai_endpoint) == norm_opt(opt_view(config.openai_endpoint))
                    &&& opt_view(q.config.openai_api_key) == norm_opt(opt_view(config.openai_api_key))
                    &&& opt_view(q.config.openai_model) == norm_opt(opt_view(config.openai_model))
                },
            }
        }),
{
    if !row.can_load_analysis {
        return Err(
            match &row.analysis_blocked_reason {
                Some(reason) => reason.clone(),
                None => text::to_string("selected row does not support AI analysis"),
            },
        );
    }
    if diff.hunks.len() == 0 {
        return Err(text::to_string("load detailed diff before running AI analysis"));
    }
    let diff_excerpt = build_diff_excerpt(diff);
    if text::is_blank(diff_excerpt.as_str()) {
        return Err(text::to_string("detailed diff excerpt is empty, cannot run AI analysis"));
    }
    if config.provider_kind == AiProviderKind::OpenAiCompatible {
        if is_blank_opt(&config.openai_endpoint) {
            return Err(
                text::to_string("remote provider endpoint is required for OpenAI-compatible mode"),
            );
        }
        if is_blank_opt(&config.openai_api_key) {
            return Err(
                text::to_string("remote provider api key is required for OpenAI-compatible mode"),
            );
        }
        if is_blank_opt(&config.openai_model) {
            return Err(
                text::to_string("remote provider model is required for OpenAI-compatible mode"),
            );
        }
    }
    let provider_kind = config.provider_kind;
    let new_config = AiConfig {
        provider_kind,
        openai_endpoint: normalize_optional_text(config.openai_endpoint),
        openai_api_key: normalize_optional_text(config.openai_api_key),
        openai_model: normalize_optional_text(config.openai_model),
    };
    let mut notes: Vec<Vec<char>> = Vec::new();
    if diff_truncated {
        notes.push(chars_of("detailed diff output is truncated"));
    }
    match diff_warning {
        Some(w) => {
            let t = text::trim_chars(&chars_of(w), text::TrimClass::Whitespace);
            if t.len() > 0 {
                notes.push(t);
            }
        },
        None => {},
    }
    proof {
        assert(notes@.map_values(|p: Vec<char>| p@) =~= diff_notes(diff_truncated, opt_str_view(diff_warning)));
    }
    let truncation_note = if notes.len() == 0 {
        None
    } else {
        let sep = chars_of("; ");
        Some(string_from_chars(&text::join_chars(&notes, &sep)))
    };
    Ok(
        AnalyzeDiffRequest {
            task: AnalysisTask::RiskReview,
            relative_path: Some(row.relative_path.clone()),
            language_hint: infer_language_hint(row.relative_path.as_str()),
            diff_excerpt,
            summary: Some(build_diff_summary(diff)),
            truncation_note,
            config: new_config,
        },
    )
}

// ---------------------------------------------------------------------------
// Flat rows straight from compare entries
// ---------------------------------------------------------------------------

/// The status word of a flat row.
pub open spec fn entry_status_text(s: EntryStatus) -> Seq<char> {
    match s {
        EntryStatus::LeftOnly => "left-only"@,
        EntryStatus::RightOnly => "right-only"@,
        EntryStatus::Equal => "equal"@,
        EntryStatus::Different => "different"@,
        EntryStatus::Pending => "pending"@,
        EntryStatus::Skipped => "skipped"@,
    }
}

/// The kind word of a flat row.
pub open spec fn entry_kind_text(k: EntryKind) -> Seq<char> {
    match k {
        EntryKind::File => "file"@,
        EntryKind::Directory => "directory"@,
        EntryKind::Symlink => "symlink"@,
        EntryKind::Other => "other"@,
    }
}

/// The detail-kind word of a flat row.
pub open spec fn entry_detail_kind_text(d: EntryDetail) -> Seq<char> {
    match d {
        EntryDetail::NoDetail => "none"@,
        EntryDetail::Message(_) => "message"@,
        EntryDetail::TypeMismatch { .. } => "type-mismatch"@,
        EntryDetail::FileComparison { .. } => "file-comparison"@,
        EntryDetail::ContentComparisonDeferred => "content-comparison-deferred"@,
        EntryDetail::TextDetailDeferred { .. } => "text-detail-deferred"@,
        EntryDetail::TextDiff(_) => "text-diff"@,
    }
}

/// The detail text of a flat row: the one-line text of the entry's detail.
pub open spec fn entry_detail_text(d: EntryDetail, k: EntryKind) -> Seq<char> {
    compare_foundation::legacy_text_of(
        compare_foundation::detail_from_core(d),
        compare_foundation::kind_from_core(k),
    )
}

/// Why an entry cannot load a detailed diff, if it cannot.
pub open spec fn diff_blocked_text(e: CompareEntry) -> Option<Seq<char>> {
    match compare_foundation::diff_from_core(e) {
        compare_foundation::CompareDiffAvailability::Available => None,
        compare_foundation::CompareDiffAvailability::Unavailable(reason) => Some(
            compare_foundation::diff_reason_text(reason),
        ),
    }
}

/// Why an entry cannot load AI analysis: the diff reason, else a status that
/// is not `Different`.
pub open spec fn analysis_blocked_text(e: CompareEntry, diff: Option<Seq<char>>) -> Option<
    Seq<char>,
> {
    match diff {
        Some(reason) => Some(reason),
        None => if e.status != EntryStatus::Different {
            Some("AI analysis is only available for changed file entries"@)
        } else {
            None
        },
    }
}

pub fn status_text(status: EntryStatus) -> (r: String)
    ensures
        r@ == entry_status_text(status),
{
    let t = match status {
        EntryStatus::LeftOnly => "left-only",
        EntryStatus::RightOnly => "right-only",
        EntryStatus::Equal => "equal",
        EntryStatus::Different => "different",
        EntryStatus::Pending => "pending",
        EntryStatus::Skipped => "skipped",
    };
    text::to_string(t)
}

pub fn kind_text(kind: EntryKind) -> (r: &'static str)
    ensures
        r@ == entry_kind_text(kind),
{
    match kind {
        EntryKind::File => "file",
        EntryKind::Directory => "directory",
        EntryKind::Symlink => "symlink",
        EntryKind::Other => "other",
    }
}

pub fn detail_kind_text(detail: &EntryDetail) -> (r: &'static str)
    ensures
        r@ == entry_detail_kind_text(*detail),
{
    match detail {
        EntryDetail::NoDetail => "none",
        EntryDetail::Message(_) => "message",
        EntryDetail::TypeMismatch { .. } => "type-mismatch",
        EntryDetail::FileComparison { .. } => "file-comparison",
        EntryDetail::ContentComparisonDeferred => "content-comparison-deferred",
        EntryDetail::TextDetailDeferred { .. } => "text-detail-deferred",
        EntryDetail::TextDiff(_) => "text-diff",
    }
}

pub fn detail_text(detail: &EntryDetail, kind: EntryKind) -> (r: String)
    ensures
        r@ == entry_detail_text(*detail, kind),
{
    let d = compare_foundation::compare_detail_from_core(detail);
    d.legacy_text(compare_foundation::compare_kind_from_core(kind))
}

pub fn detailed_diff_blocked_reason(entry: &CompareEntry) -> (r: Option<String>)
    ensures
        opt_view(r) == diff_blocked_text(*entry),
{
    let caps = compare_foundation::compare_capabilities_from_core(entry);
    caps.diff_blocked_reason_text()
}

pub fn detailed_analysis_blocked_reason(entry: &CompareEntry, diff_blocked_reason: &Option<String>) -> (r:
    Option<String>)
    ensures
        opt_view(r) == analysis_blocked_text(*entry, opt_view(*diff_blocked_reason)),
{
    match diff_blocked_reason {
        Some(reason) => {
            return Some(reason.clone());
        },
        None => {},
    }
    if entry.status != EntryStatus::Different {
        return Some(text::to_string("AI analysis is only available for changed file entries"));
    }
    None
}

/// The flat row of one compare entry.
pub open spec fn entry_row_of(row: CompareEntryRowViewModel, e: CompareEntry) -> bool {
    let diff = diff_blocked_text(e);
    let analysis = analysis_blocked_text(e, diff);
    &&& row.relative_path@ == e.relative_path@
    &&& row.status@ == entry_status_text(e.status)
    &&& row.detail@ == entry_detail_text(e.detail, e.kind)
    &&& row.entry_kind@ == entry_kind_text(e.kind)
    &&& row.detail_kind@ == entry_detail_kind_text(e.detail)
    &&& row.can_load_diff == (diff is None)
    &&& opt_view(row.diff_blocked_reason) == diff
    &&& row.can_load_analysis == (analysis is None)
    &&& opt_view(row.analysis_blocked_reason) == analysis
}

pub fn map_entry_row(entry: &CompareEntry) -> (r: CompareEntryRowViewModel)
    ensures
        entry_row_of(r, *entry),
{
    let diff_blocked_reason = detailed_diff_blocked_reason(entry);
    let analysis_blocked_reason = detailed_analysis_blocked_reason(entry, &diff_blocked_reason);
    CompareEntryRowViewModel {
        relative_path: entry.relative_path.clone(),
        status: status_text(entry.status),
        detail: detail_text(&entry.detail, entry.kind),
        entry_kind: text::to_string(kind_text(entry.kind)),
        detail_kind: text::to_string(detail_kind_text(&entry.detail)),
        can_load_diff: diff_blocked_reason.is_none(),
        diff_blocked_reason,
        can_load_analysis: analysis_blocked_reason.is_none(),
        analysis_blocked_reason,
    }
}

/// The flat row of a file entry that exists on one side only, or is equal on
/// both sides, can load its detailed diff and shows no blocked reason; the
/// row of a skipped file cannot, and says that the entry was skipped.
pub proof fn lemma_entry_row_diff_of_files(e: CompareEntry, row: CompareEntryRowViewModel)
    requires
        entry_row_of(row, e),
    ensures
        e.kind == EntryKind::File && (e.status == EntryStatus::LeftOnly || e.status
            == EntryStatus::RightOnly || e.status == EntryStatus::Equal) ==> row.can_load_diff
            && row.diff_blocked_reason is None,
        e.kind == EntryKind::File && e.status == EntryStatus::Skipped ==> !row.can_load_diff
            && opt_view(row.diff_blocked_reason) == Some(
            "entry was skipped during compare and cannot load detailed diff"@,
        ),
        row.can_load_diff ==> e.kind == EntryKind::File,
{
    compare_foundation::lemma_diff_capability_of_entry(e);
}

} // verus!
