use fc_ui::compare_foundation::{
    CompareAnalysisAvailability, CompareAnalysisUnavailableReason, CompareBaseStatus,
    CompareDiffAvailability, CompareDiffUnavailableReason, CompareFocusPath, CompareFoundation,
    CompareFoundationDetail, CompareNodeKind, CompareTextDeferredReason,
};
use fc_ui::core_model::{
    CompareEntry, EntryDetail, EntryKind, EntryStatus, TextDetailDeferredReason, TextDiffSummary,
};
use fc_ui::legacy_rows::{
    compare_kind_from_legacy, compare_status_from_legacy, extract_prefixed_token,
    foundation_from_legacy_rows, parse_bytes_token, parse_legacy_analysis_reason,
    parse_legacy_detail, record_from_legacy_row,
};
use fc_ui::view_models::CompareEntryRowViewModel;

fn row(path: &str, status: &str, kind: &str, detail_kind: &str, detail: &str) -> CompareEntryRowViewModel {
    CompareEntryRowViewModel {
        relative_path: path.to_string(),
        status: status.to_string(),
        detail: detail.to_string(),
        entry_kind: kind.to_string(),
        detail_kind: detail_kind.to_string(),
        can_load_diff: true,
        diff_blocked_reason: None,
        can_load_analysis: true,
        analysis_blocked_reason: None,
    }
}

#[test]
fn legacy_kind_and_status_words_ignore_case_and_space() {
    assert_eq!(compare_kind_from_legacy(" Directory "), CompareNodeKind::Directory);
    assert_eq!(compare_kind_from_legacy("SYMLINK"), CompareNodeKind::Symlink);
    assert_eq!(compare_kind_from_legacy("other"), CompareNodeKind::Other);
    assert_eq!(compare_kind_from_legacy("whatever"), CompareNodeKind::File);
    assert_eq!(compare_status_from_legacy("Left-Only"), CompareBaseStatus::LeftOnly);
    assert_eq!(compare_status_from_legacy(" right-only"), CompareBaseStatus::RightOnly);
    assert_eq!(compare_status_from_legacy("equal"), CompareBaseStatus::Equal);
    assert_eq!(compare_status_from_legacy("pending"), CompareBaseStatus::Pending);
    assert_eq!(compare_status_from_legacy("skipped"), CompareBaseStatus::Skipped);
    assert_eq!(compare_status_from_legacy("changed"), CompareBaseStatus::Different);
}

#[test]
fn prefixed_tokens_are_found_in_words() {
    let text = "file compare: left=10B right=12B content_checked=true";
    assert_eq!(extract_prefixed_token(text, "left="), Some("10B".to_string()));
    assert_eq!(extract_prefixed_token(text, "right="), Some("12B".to_string()));
    assert_eq!(extract_prefixed_token(text, "limit="), None);
    assert_eq!(extract_prefixed_token("a |x=1,| b", "x="), Some("1".to_string()));
    assert_eq!(parse_bytes_token(text, "left="), Some(10));
    assert_eq!(parse_bytes_token("left=+7B", "left="), Some(7));
    assert_eq!(parse_bytes_token("left=abcB", "left="), None);
    assert_eq!(parse_bytes_token("left=18446744073709551616B", "left="), None);
    assert_eq!(parse_bytes_token("left=18446744073709551615B", "left="), Some(u64::MAX));
}

#[test]
fn legacy_analysis_reason_reads_custom_text() {
    assert_eq!(
        parse_legacy_analysis_reason(None),
        CompareAnalysisUnavailableReason::RequiresChangedFile
    );
    assert_eq!(
        parse_legacy_analysis_reason(Some("  ".to_string())),
        CompareAnalysisUnavailableReason::RequiresChangedFile
    );
    assert_eq!(
        parse_legacy_analysis_reason(Some(
            " AI analysis is only available for changed file entries ".to_string()
        )),
        CompareAnalysisUnavailableReason::RequiresChangedFile
    );
    assert_eq!(
        parse_legacy_analysis_reason(Some(" no provider ".to_string())),
        CompareAnalysisUnavailableReason::Custom("no provider".to_string())
    );
}

#[test]
fn legacy_details_read_back_their_values() {
    let r = row("a", "different", "file", "file-comparison", "file compare: left=10B right=12B content_checked=TRUE");
    assert_eq!(
        parse_legacy_detail(&r),
        CompareFoundationDetail::FileComparison { left_size: 10, right_size: 12, content_checked: true }
    );
    let r = row("a", "different", "file", "text-diff", "text summary: hunks=2 +5 -3 ctx=8");
    assert_eq!(
        parse_legacy_detail(&r),
        CompareFoundationDetail::TextDiffSummary {
            hunk_count: 2,
            added_lines: 5,
            removed_lines: 3,
            context_lines: 8
        }
    );
    let r = row("a", "different", "symlink", "type-mismatch", "type mismatch: left=symlink right=directory");
    assert_eq!(
        parse_legacy_detail(&r),
        CompareFoundationDetail::TypeMismatch {
            left: CompareNodeKind::Symlink,
            right: CompareNodeKind::Directory
        }
    );
    let r = row(
        "a",
        "pending",
        "file",
        "text-detail-deferred",
        "text detail deferred (large-directory mode): left=1B right=2B limit=3B content_checked=false",
    );
    assert_eq!(
        parse_legacy_detail(&r),
        CompareFoundationDetail::TextDetailDeferred {
            reason: CompareTextDeferredReason::LargeDirectoryMode,
            left_size: 1,
            right_size: 2,
            max_text_file_size_bytes: 3,
            content_checked: false
        }
    );
    let r = row("a", "equal", "file", "none", "kind=file");
    assert_eq!(parse_legacy_detail(&r), CompareFoundationDetail::NoDetail);
    let r = row("a", "equal", "file", "unknown", "   ");
    assert_eq!(parse_legacy_detail(&r), CompareFoundationDetail::NoDetail);
    let r = row("a", "equal", "file", "unknown", "something");
    assert_eq!(
        parse_legacy_detail(&r),
        CompareFoundationDetail::Message { message: "something".to_string() }
    );
    let r = row("a", "equal", "file", "message", "");
    assert_eq!(
        parse_legacy_detail(&r),
        CompareFoundationDetail::Message { message: String::new() }
    );
    let r = row("a", "different", "file", "text-diff", "text summary: hunks=x");
    assert_eq!(
        parse_legacy_detail(&r),
        CompareFoundationDetail::TextDiffSummary {
            hunk_count: 0,
            added_lines: 0,
            removed_lines: 0,
            context_lines: 0
        }
    );
}

#[test]
fn legacy_record_keeps_blocked_reasons() {
    let mut r = row("b.bin", "different", "file", "file-comparison", "");
    r.can_load_diff = false;
    r.can_load_analysis = false;
    let rec = record_from_legacy_row(&r);
    assert_eq!(
        rec.capabilities.diff,
        CompareDiffAvailability::Unavailable(CompareDiffUnavailableReason::DetailMessage(
            "selected row does not support detailed text diff".to_string()
        ))
    );
    assert_eq!(
        rec.capabilities.analysis,
        CompareAnalysisAvailability::Unavailable(CompareAnalysisUnavailableReason::RequiresChangedFile)
    );
    r.diff_blocked_reason = Some("binary".to_string());
    let rec = record_from_legacy_row(&r);
    assert_eq!(
        rec.capabilities.analysis,
        CompareAnalysisAvailability::Unavailable(CompareAnalysisUnavailableReason::Custom(
            "binary".to_string()
        ))
    );
}

#[test]
fn legacy_rows_rebuild_the_foundation_of_their_entries() {
    let entries = vec![
        CompareEntry::new("docs/readme.md", EntryKind::File, EntryStatus::Different).with_detail(
            EntryDetail::TextDiff(TextDiffSummary {
                hunk_count: 2,
                added_lines: 5,
                removed_lines: 3,
                context_lines: 8,
            }),
        ),
        CompareEntry::new("assets/logo.png", EntryKind::File, EntryStatus::Different).with_detail(
            EntryDetail::FileComparison { left_size: 10, right_size: 12, content_checked: true },
        ),
        CompareEntry::new("docs/big.txt", EntryKind::File, EntryStatus::Pending).with_detail(
            EntryDetail::TextDetailDeferred {
                reason: TextDetailDeferredReason::FileTooLarge,
                left_size: 100,
                right_size: 200,
                max_text_file_size_bytes: 50,
                content_checked: false,
            },
        ),
        CompareEntry::new("only/left.txt", EntryKind::File, EntryStatus::LeftOnly),
    ];
    let built = CompareFoundation::from_compare_entries(&entries);
    let rows = built.project_legacy_entry_rows();
    let rebuilt = foundation_from_legacy_rows(&rows);
    assert_eq!(rebuilt.source_entry_count(), 4);
    for key in ["docs", "assets", "only", "docs/readme.md", "assets/logo.png", "docs/big.txt"] {
        let a = built.node(key).expect("node of the entries");
        let b = rebuilt.node(key).expect("node of the rows");
        assert_eq!(a.base_status, b.base_status);
        assert_eq!(a.side_presence, b.side_presence);
        assert_eq!(a.detail, b.detail);
        assert_eq!(a.kind, b.kind);
    }
    let children = rebuilt.immediate_children(&CompareFocusPath::root());
    let names: Vec<&str> = children.iter().map(|c| c.relative_path.as_str()).collect();
    assert_eq!(names, vec!["assets", "docs", "only"]);
}
