use fc_ui::bridge::{
    build_diff_excerpt, build_diff_summary, build_text_diff_request, compare_root_input,
    detail_text, detailed_analysis_blocked_reason, detailed_diff_blocked_reason,
    infer_language_hint, language_for_extension, map_entry_row, map_text_diff_result,
    normalize_optional_text, single_side_preview_panel, single_side_preview_side, PreviewSide,
};
use fc_ui::compare_file::{load_text_lines, read_error_message};
use fc_ui::core_model::{
    CompareEntry, DiffHunk, DiffLine, DiffLineKind, EntryDetail, EntryKind, EntryStatus,
    TextDiffResult, TextDiffSummary,
};
use fc_ui::view_models::CompareEntryRowViewModel;

#[test]
fn entry_row_of_text_diff_allows_diff_and_analysis() {
    let e = CompareEntry::new("src/lib.rs", EntryKind::File, EntryStatus::Different).with_detail(
        EntryDetail::TextDiff(TextDiffSummary {
            hunk_count: 1,
            added_lines: 2,
            removed_lines: 3,
            context_lines: 4,
        }),
    );
    let row = map_entry_row(&e);
    assert_eq!(row.relative_path, "src/lib.rs");
    assert_eq!(row.status, "different");
    assert_eq!(row.detail, "text summary: hunks=1 +2 -3 ctx=4");
    assert_eq!(row.entry_kind, "file");
    assert_eq!(row.detail_kind, "text-diff");
    assert!(row.can_load_diff);
    assert_eq!(row.diff_blocked_reason, None);
    assert!(row.can_load_analysis);
    assert_eq!(row.analysis_blocked_reason, None);
}

#[test]
fn entry_row_blocked_reasons() {
    let dir = CompareEntry::new("src", EntryKind::Directory, EntryStatus::Equal);
    let reason = detailed_diff_blocked_reason(&dir);
    assert_eq!(
        reason,
        Some("detailed text diff is only available for file entries".to_string())
    );
    assert_eq!(detailed_analysis_blocked_reason(&dir, &reason), reason);
    assert_eq!(map_entry_row(&dir).detail, "kind=directory");

    let skipped = CompareEntry::new("a.txt", EntryKind::File, EntryStatus::Skipped);
    assert_eq!(
        detailed_diff_blocked_reason(&skipped),
        Some("entry was skipped during compare and cannot load detailed diff".to_string())
    );

    let equal = CompareEntry::new("a.txt", EntryKind::File, EntryStatus::Equal);
    assert_eq!(detailed_diff_blocked_reason(&equal), None);
    assert_eq!(
        detailed_analysis_blocked_reason(&equal, &None),
        Some("AI analysis is only available for changed file entries".to_string())
    );

    let msg = CompareEntry::new("a.txt", EntryKind::File, EntryStatus::Different)
        .with_detail(EntryDetail::Message("too big".to_string()));
    assert_eq!(
        detailed_diff_blocked_reason(&msg),
        Some("entry detail indicates detailed text diff is unavailable: too big".to_string())
    );
    assert_eq!(
        detail_text(
            &EntryDetail::FileComparison { left_size: 10, right_size: 12, content_checked: true },
            EntryKind::File
        ),
        "file compare: left=10B right=12B content_checked=true"
    );
}

#[test]
fn compare_root_input_rejects_blank_paths() {
    assert_eq!(
        compare_root_input("Left", "   "),
        Err("Left path is empty. Select a folder first.".to_string())
    );
    assert_eq!(compare_root_input("Right", " /tmp/a "), Ok("/tmp/a".to_string()));
}

fn row(path: &str, can_load_diff: bool, reason: Option<&str>) -> CompareEntryRowViewModel {
    CompareEntryRowViewModel {
        relative_path: path.to_string(),
        status: "different".to_string(),
        can_load_diff,
        diff_blocked_reason: reason.map(|r| r.to_string()),
        ..Default::default()
    }
}

#[test]
fn text_diff_request_errors() {
    let ok = row("a.rs", true, None);
    assert_eq!(
        build_text_diff_request(" ", "/r", &ok).unwrap_err(),
        "left root path is required"
    );
    assert_eq!(
        build_text_diff_request("/l", "", &ok).unwrap_err(),
        "right root path is required"
    );
    assert_eq!(
        build_text_diff_request("/l", "/r", &row("a.rs", false, None)).unwrap_err(),
        "selected row does not support detailed text diff"
    );
    assert_eq!(
        build_text_diff_request("/l", "/r", &row("a.rs", false, Some("binary"))).unwrap_err(),
        "binary"
    );
    let q = build_text_diff_request(" /l ", "/r", &ok).unwrap();
    assert_eq!(q.left_root, "/l");
    assert_eq!(q.right_root, "/r");
    assert_eq!(q.relative_path, "a.rs");
}

#[test]
fn language_hint_follows_the_extension() {
    assert_eq!(infer_language_hint("src/main.rs"), Some("rust".to_string()));
    assert_eq!(infer_language_hint("web/App.TSX"), Some("tsx".to_string()));
    assert_eq!(infer_language_hint("Makefile"), None);
    assert_eq!(infer_language_hint("notes.unknown"), None);
    assert_eq!(infer_language_hint(".gitignore"), None);
    assert_eq!(infer_language_hint("dot/.hidden.rs"), Some("rust".to_string()));
    assert_eq!(infer_language_hint("pkg.rs/"), Some("rust".to_string()));
    assert_eq!(infer_language_hint("x/./y.py"), Some("python".to_string()));
    assert_eq!(infer_language_hint("a.rs/.."), None);
    assert_eq!(infer_language_hint("file."), None);
    assert_eq!(language_for_extension("YML"), Some("yaml".to_string()));
    assert_eq!(language_for_extension("hpp"), Some("cpp".to_string()));
}

#[test]
fn optional_text_is_trimmed_or_dropped() {
    assert_eq!(normalize_optional_text(Some("  x ".to_string())), Some("x".to_string()));
    assert_eq!(normalize_optional_text(Some("   ".to_string())), None);
    assert_eq!(normalize_optional_text(None), None);
}

fn sample_result() -> TextDiffResult {
    TextDiffResult {
        summary: TextDiffSummary { hunk_count: 1, added_lines: 1, removed_lines: 1, context_lines: 1 },
        hunks: vec![DiffHunk {
            old_start: 1,
            old_len: 2,
            new_start: 1,
            new_len: 2,
            lines: vec![
                DiffLine {
                    kind: DiffLineKind::Context,
                    old_line_no: Some(1),
                    new_line_no: Some(1),
                    content: "keep".to_string(),
                },
                DiffLine {
                    kind: DiffLineKind::Removed,
                    old_line_no: Some(2),
                    new_line_no: None,
                    content: "old".to_string(),
                },
                DiffLine {
                    kind: DiffLineKind::Added,
                    old_line_no: None,
                    new_line_no: Some(2),
                    content: "new".to_string(),
                },
            ],
        }],
        truncated: false,
        warning: None,
    }
}

#[test]
fn diff_summary_counts_line_kinds() {
    let panel = map_text_diff_result("a.rs", sample_result());
    let s = build_diff_summary(&panel);
    assert_eq!(s.hunk_count, 1);
    assert_eq!(s.added_lines, 1);
    assert_eq!(s.removed_lines, 1);
    assert_eq!(s.context_lines, 1);
    let excerpt = build_diff_excerpt(&panel);
    assert_eq!(excerpt.lines().count(), 4);
    assert!(excerpt.ends_with("\n-old\n+new"));
}

#[test]
fn preview_side_follows_status() {
    assert_eq!(single_side_preview_side("left-only"), Some(PreviewSide::Left));
    assert_eq!(single_side_preview_side("right-only"), Some(PreviewSide::Right));
    assert_eq!(single_side_preview_side("equal"), Some(PreviewSide::Both));
    assert_eq!(single_side_preview_side("different"), None);
}

#[test]
fn binary_single_side_preview_is_unavailable() {
    let panel = single_side_preview_panel("a.bin", PreviewSide::Left, b"ab\0cd");
    assert_eq!(panel.hunks.len(), 1);
    assert!(panel.hunks[0].lines[0].content.starts_with("[preview unavailable] "));
    let panel = single_side_preview_panel("a.txt", PreviewSide::Right, b"one\ntwo\n");
    assert_eq!(panel.hunks.len(), 1);
    assert_eq!(panel.hunks[0].lines.len(), 2);
    assert_eq!(panel.hunks[0].lines[1].content, "two");
}

#[test]
fn text_lines_report_binary_and_non_utf8_content() {
    assert_eq!(
        load_text_lines(b"a\0b", "left-only"),
        Err("left-only file preview is unavailable in Compare File View for binary content".to_string())
    );
    let err = load_text_lines(b"caf\xe9", "equal").unwrap_err();
    let std_text = std::str::from_utf8(b"caf\xe9").unwrap_err().to_string();
    assert_eq!(
        err,
        format!("equal file preview is unavailable in Compare File View for non-UTF-8 text: {std_text}")
    );
    assert_eq!(
        load_text_lines(b"a\r\nb", "equal"),
        Ok(vec!["a".to_string(), "b".to_string()])
    );
    assert_eq!(
        read_error_message("left-only", "denied"),
        "cannot read left-only file content for Compare File View: denied"
    );
}
