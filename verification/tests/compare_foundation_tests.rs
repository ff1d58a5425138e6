use fc_ui::compare_foundation::{CompareBaseStatus, CompareFocusPath, CompareFoundation};
use fc_ui::core_model::{CompareEntry, EntryDetail, EntryKind, EntryStatus, TextDiffSummary};

#[test]
fn foundation_builds_root_and_immediate_children() {
    let entries = vec![
        CompareEntry::new("src/main.rs", EntryKind::File, EntryStatus::Different).with_detail(
            EntryDetail::TextDiff(TextDiffSummary {
                hunk_count: 1,
                added_lines: 2,
                removed_lines: 1,
                context_lines: 3,
            }),
        ),
        CompareEntry::new("src/bin/tool.rs", EntryKind::File, EntryStatus::LeftOnly),
        CompareEntry::new("Cargo.toml", EntryKind::File, EntryStatus::Equal),
    ];

    let foundation = CompareFoundation::from_compare_entries(&entries);
    let root_children = foundation.immediate_children(&CompareFocusPath::root());
    assert_eq!(
        root_children
            .iter()
            .map(|child| child.relative_path.as_str())
            .collect::<Vec<_>>(),
        vec!["Cargo.toml", "src"]
    );

    let src_children = foundation.immediate_children(&CompareFocusPath::relative("src"));
    assert_eq!(
        src_children
            .iter()
            .map(|child| child.relative_path.as_str())
            .collect::<Vec<_>>(),
        vec!["src/bin", "src/main.rs"]
    );
    assert_eq!(
        foundation
            .node("src")
            .expect("src node should exist")
            .base_status,
        CompareBaseStatus::Different
    );
}

#[test]
fn compare_focus_clamps_to_existing_directory_ancestor() {
    let entries = vec![CompareEntry::new(
        "src/bin/main.rs",
        EntryKind::File,
        EntryStatus::Different,
    )];
    let foundation = CompareFoundation::from_compare_entries(&entries);

    assert_eq!(
        foundation.clamp_compare_focus_path(&CompareFocusPath::relative("src/bin/main.rs")),
        CompareFocusPath::relative("src/bin")
    );
    assert_eq!(
        foundation.clamp_compare_focus_path(&CompareFocusPath::relative("missing/path")),
        CompareFocusPath::root()
    );
}

#[test]
fn legacy_entry_rows_preserve_source_order_and_capabilities() {
    let entries = vec![
        CompareEntry::new("docs/readme.md", EntryKind::File, EntryStatus::Different).with_detail(
            EntryDetail::TextDiff(TextDiffSummary {
                hunk_count: 2,
                added_lines: 5,
                removed_lines: 3,
                context_lines: 8,
            }),
        ),
        CompareEntry::new("assets/logo.png", EntryKind::File, EntryStatus::Different).with_detail(
            EntryDetail::FileComparison {
                left_size: 10,
                right_size: 12,
                content_checked: true,
            },
        ),
    ];

    let rows = CompareFoundation::from_compare_entries(&entries).project_legacy_entry_rows();
    assert_eq!(rows[0].relative_path, "docs/readme.md");
    assert_eq!(rows[0].detail_kind, "text-diff");
    assert!(rows[0].can_load_diff);
    assert!(rows[0].can_load_analysis);

    assert_eq!(rows[1].relative_path, "assets/logo.png");
    assert_eq!(rows[1].detail_kind, "file-comparison");
    assert!(!rows[1].can_load_diff);
    assert!(!rows[1].can_load_analysis);
}
