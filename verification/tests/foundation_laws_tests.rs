use fc_ui::compare_foundation::{
    CompareBaseStatus, CompareFocusPath, CompareFoundation, CompareNodeKind,
};
use fc_ui::core_model::{CompareEntry, EntryDetail, EntryKind, EntryStatus, TextDiffSummary};
use fc_ui::context_menu::{
    analysis_section_target_token, compare_status_target_token, results_row_custom_actions,
    results_target_token, tree_results_target_token, tree_row_custom_actions,
    workspace_header_target_token, RESULTS_LOCATE_AND_OPEN_ACTION_ID,
    RESULTS_OPEN_IN_COMPARE_VIEW_ACTION_ID,
};
use fc_ui::loading_mask::LoadingMaskState;

fn sample_entries() -> Vec<CompareEntry> {
    vec![
        CompareEntry::new("src/main.rs", EntryKind::File, EntryStatus::Different).with_detail(
            EntryDetail::TextDiff(TextDiffSummary {
                hunk_count: 1,
                added_lines: 1,
                removed_lines: 0,
                context_lines: 2,
            }),
        ),
        CompareEntry::new("src/bin/tool.rs", EntryKind::File, EntryStatus::LeftOnly),
        CompareEntry::new("docs", EntryKind::Directory, EntryStatus::Equal),
        CompareEntry::new("Cargo.toml", EntryKind::File, EntryStatus::Equal),
    ]
}

#[test]
fn empty_default_and_entryless_foundations_agree() {
    let empty = CompareFoundation::empty();
    assert_eq!(CompareFoundation::default(), empty);
    assert_eq!(CompareFoundation::from_compare_entries(&[]), empty);
    let root = empty.node("").expect("root");
    assert_eq!(root.kind, CompareNodeKind::Root);
    assert_eq!(root.display_name, "compare root");
    assert_eq!(root.relative_path, "");
    assert_eq!(root.parent_relative_path, None);
    assert_eq!(root.path_depth, 0);
    assert_eq!(root.source_index, None);
    assert_eq!(root.base_status, CompareBaseStatus::Equal);
    assert!(root.child_relative_paths.is_empty());
    assert!(!root.capabilities.can_load_diff());
    assert_eq!(empty.source_entry_count(), 0);
}

#[test]
fn capabilities_follow_kind_and_status() {
    let f = CompareFoundation::from_compare_entries(&sample_entries());
    for key in ["", "src", "src/bin", "src/main.rs", "src/bin/tool.rs", "docs", "Cargo.toml"] {
        let n = f.node(key).expect("node");
        if n.capabilities.can_load_analysis() {
            assert!(n.capabilities.can_load_diff());
            assert_eq!(n.kind, CompareNodeKind::File);
            assert_eq!(n.base_status, CompareBaseStatus::Different);
            assert!(n.has_compare_entry());
        }
        if n.capabilities.can_load_diff() {
            assert_eq!(n.kind, CompareNodeKind::File);
        }
    }
    assert!(f.node("src/main.rs").unwrap().capabilities.can_load_analysis());
    assert!(!f.node("Cargo.toml").unwrap().capabilities.can_load_analysis());
    assert!(f.node("Cargo.toml").unwrap().capabilities.can_load_diff());
}

#[test]
fn tree_shape_and_aggregation() {
    let f = CompareFoundation::from_compare_entries(&sample_entries());
    for key in ["", "src", "src/bin", "docs"] {
        let n = f.node(key).expect("node");
        let mut sorted = n.child_relative_paths.clone();
        sorted.sort();
        sorted.dedup();
        assert_eq!(sorted, n.child_relative_paths);
        for c in &n.child_relative_paths {
            let m = f.node(c).expect("child node");
            let expected = if key.is_empty() { None } else { Some(key.to_string()) };
            assert_eq!(m.parent_relative_path, expected);
            assert_eq!(m.path_depth, n.path_depth + 1);
        }
    }
    assert_eq!(f.node("src/bin").unwrap().base_status, CompareBaseStatus::LeftOnly);
    assert_eq!(f.node("src").unwrap().base_status, CompareBaseStatus::Different);
    assert_eq!(f.node("").unwrap().base_status, CompareBaseStatus::Different);
    let src = f.node("src").unwrap();
    assert!(src.side_presence.left && src.side_presence.right);
}

#[test]
fn source_nodes_and_indices_invert() {
    let entries = sample_entries();
    let f = CompareFoundation::from_compare_entries(&entries);
    for (i, e) in entries.iter().enumerate() {
        assert_eq!(f.source_node(i).unwrap().relative_path, e.relative_path);
        assert_eq!(f.source_index_for_relative_path(&e.relative_path), Some(i));
    }
    assert!(f.source_node(entries.len()).is_none());
    assert_eq!(f.source_index_for_relative_path("src"), None);
    assert_eq!(f.source_index_for_relative_path("src/bin"), None);
    let rows = f.project_legacy_entry_rows();
    assert_eq!(rows.len(), entries.len());
    for (row, e) in rows.iter().zip(entries.iter()) {
        assert_eq!(row.relative_path, e.relative_path);
        assert_eq!(row.can_load_diff, row.diff_blocked_reason.is_none());
        assert_eq!(row.can_load_analysis, row.analysis_blocked_reason.is_none());
        assert!(!row.can_load_analysis || row.can_load_diff);
        assert_eq!(row.status, f.node(&row.relative_path).unwrap().base_status.as_str());
    }
}

#[test]
fn clamp_rests_on_longest_directory_prefix() {
    let f = CompareFoundation::from_compare_entries(&sample_entries());
    assert_eq!(
        f.clamp_compare_focus_path(&CompareFocusPath::relative("src/bin/tool.rs")),
        CompareFocusPath::relative("src/bin")
    );
    assert_eq!(
        f.clamp_compare_focus_path(&CompareFocusPath::relative("src/missing/deep")),
        CompareFocusPath::relative("src")
    );
    assert_eq!(
        f.clamp_compare_focus_path(&CompareFocusPath::relative("Cargo.toml")),
        CompareFocusPath::root()
    );
    let children = f.immediate_children(&CompareFocusPath::relative("src/main.rs"));
    let paths: Vec<&str> = children.iter().map(|c| c.relative_path.as_str()).collect();
    assert_eq!(paths, vec!["src/bin", "src/main.rs"]);
    for c in &children {
        assert_eq!(f.node(&c.relative_path).unwrap().parent_relative_path.as_deref(), Some("src"));
    }
}

#[test]
fn stale_and_repeated_timeouts_change_nothing() {
    let mut state = LoadingMaskState::default();
    let (_, generation) = state.advance(false, true, false);
    let generation = generation.expect("busy phase requests a timeout");
    assert!(state.trigger_timeout(generation).is_some());
    let after_fire = (state.phase, state.generation, state.timeout_reached);
    assert_eq!(state.trigger_timeout(generation), None);
    assert_eq!((state.phase, state.generation, state.timeout_reached), after_fire);

    let (_, next) = state.advance(true, false, false);
    assert!(next.is_some());
    let before = (state.phase, state.generation, state.timeout_reached);
    assert_eq!(state.trigger_timeout(generation), None);
    assert_eq!((state.phase, state.generation, state.timeout_reached), before);
}

#[test]
fn menu_targets_and_row_actions() {
    assert_eq!(results_target_token(" src/a.rs "), "results:src/a.rs");
    assert_eq!(tree_results_target_token(" src "), "tree-results:src");
    assert_eq!(compare_status_target_token(" Compare DONE "), "compare-status:compare done");
    assert_eq!(
        workspace_header_target_token(" File View ", " a.rs"),
        "workspace-header:file view: a.rs"
    );
    assert_eq!(
        analysis_section_target_token(" Key Points ", "a.rs"),
        "analysis-section:key-points:a.rs"
    );
    let file = results_row_custom_actions(Some("file"));
    assert_eq!(file.len(), 1);
    assert_eq!(file[0].label, "Locate and Open");
    assert_eq!(file[0].action_id, RESULTS_LOCATE_AND_OPEN_ACTION_ID);
    let dir = results_row_custom_actions(Some("directory"));
    assert_eq!(dir[0].action_id, RESULTS_OPEN_IN_COMPARE_VIEW_ACTION_ID);
    assert!(results_row_custom_actions(Some("symlink")).is_empty());
    assert!(results_row_custom_actions(None).is_empty());
    assert_eq!(tree_row_custom_actions(true, "src").len(), 1);
    assert!(tree_row_custom_actions(true, "  ").is_empty());
    assert!(tree_row_custom_actions(false, "src").is_empty());
}
