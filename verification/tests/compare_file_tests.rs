use fc_ui::compare_file::{emphasize_inline_difference, map_text_diff_result_to_compare_file};
use fc_ui::core_model::{DiffHunk, DiffLine, DiffLineKind, TextDiffResult, TextDiffSummary};

#[test]
fn pairs_removed_and_added_lines_into_modified_rows() {
    let result = TextDiffResult {
        summary: TextDiffSummary {
            hunk_count: 1,
            added_lines: 1,
            removed_lines: 1,
            context_lines: 0,
        },
        hunks: vec![DiffHunk {
            old_start: 1,
            old_len: 1,
            new_start: 1,
            new_len: 1,
            lines: vec![
                DiffLine {
                    kind: DiffLineKind::Removed,
                    old_line_no: Some(1),
                    new_line_no: None,
                    content: "hello old".to_string(),
                },
                DiffLine {
                    kind: DiffLineKind::Added,
                    old_line_no: None,
                    new_line_no: Some(1),
                    content: "hello new".to_string(),
                },
            ],
        }],
        truncated: false,
        warning: None,
    };

    let panel = map_text_diff_result_to_compare_file("src/main.rs", result);
    assert_eq!(panel.rows.len(), 1);
    assert_eq!(panel.rows[0].row_kind, "modified");
    assert_eq!(panel.rows[0].left_line_no, Some(1));
    assert_eq!(panel.rows[0].right_line_no, Some(1));
    assert_eq!(panel.rows[0].left_segments.len(), 2);
    assert_eq!(panel.rows[0].right_segments.len(), 2);
}

#[test]
fn inline_emphasis_handles_cjk_prefix_and_suffix() {
    let (left, right) = emphasize_inline_difference("你好，世界", "你好，Rust");
    assert_eq!(left.len(), 2);
    assert_eq!(left[0].text, "你好，");
    assert_eq!(left[1].tone, "emphasis");
    assert_eq!(right[0].text, "你好，");
    assert_eq!(right[1].tone, "emphasis");
}
