use fc_ui::compare_file::emphasize_inline_difference;
use fc_ui::compare_tree::{compare_tree_expansion_state, project_compare_tree_rows};
use fc_ui::expansion::ExpansionOverrides;
use fc_ui::navigator_tree::project_navigator_tree_rows;
use fc_ui::compare_foundation::{CompareFocusPath, CompareFoundation};
use fc_ui::core_model::{CompareEntry, EntryKind, EntryStatus};
use fc_ui::loading_mask::LoadingMaskState;
use fc_ui::sync_policy::{
    should_apply_compare_scroll_request, should_apply_flat_scroll_request,
    should_apply_tree_scroll_request, should_refresh_compare_view_models,
    should_refresh_flat_result_models, should_refresh_tree_result_models, AppState,
};

#[test]
fn clamping_a_focus_twice_is_clamping_once() {
    let entries = vec![
        CompareEntry::new("src/bin/main.rs", EntryKind::File, EntryStatus::Different),
        CompareEntry::new("docs", EntryKind::Directory, EntryStatus::Equal),
    ];
    let f = CompareFoundation::from_compare_entries(&entries);
    for p in ["src/bin/main.rs", "src/bin", "missing", "docs", "/src//bin/"] {
        let once = f.clamp_compare_focus_path(&CompareFocusPath::relative(p));
        let twice = f.clamp_compare_focus_path(&once);
        assert_eq!(once, twice);
    }
    assert_eq!(
        f.clamp_compare_focus_path(&CompareFocusPath::relative("/src/bin/")),
        CompareFocusPath::relative("src/bin")
    );
    assert_eq!(
        f.clamp_compare_focus_path(&CompareFocusPath::relative("/src//bin/")),
        CompareFocusPath::relative("src")
    );
}

#[test]
fn emphasis_segments_spell_both_lines() {
    for (a, b) in [("hello old", "hello new"), ("same", "same"), ("", "x"), ("abc", "")] {
        let (l, r) = emphasize_inline_difference(a, b);
        let ls: String = l.iter().map(|s| s.text.as_str()).collect();
        let rs: String = r.iter().map(|s| s.text.as_str()).collect();
        assert_eq!(ls, a);
        assert_eq!(rs, b);
    }
}

#[test]
fn busy_start_schedules_a_timeout_and_repeats_settle() {
    let mut state = LoadingMaskState::default();
    let (shown, generation) = state.advance(true, false, false);
    assert_eq!(shown.map(|p| p.message), Some("Comparing folders..."));
    assert!(generation.is_some());
    let (again, again_generation) = state.advance(true, false, false);
    assert_eq!(again, None);
    assert_eq!(again_generation, None);
    assert_eq!(state.trigger_timeout(generation.unwrap() + 1), None);
}

#[test]
fn unchanged_state_refreshes_nothing() {
    let s = AppState { running: true, selected_row: Some(3), ..AppState::default() };
    assert!(!should_refresh_flat_result_models(Some(&s), &s));
    assert!(!should_refresh_tree_result_models(Some(&s), &s));
    assert!(!should_apply_flat_scroll_request(Some(&s), &s));
    assert!(!should_apply_tree_scroll_request(Some(&s), &s));
    assert!(!should_refresh_compare_view_models(Some(&s), &s));
    assert!(!should_apply_compare_scroll_request(Some(&s), &s));
    assert!(should_refresh_flat_result_models(None, &s));
}

#[test]
fn compare_tree_leaves_out_hidden_entries() {
    let entries = vec![
        CompareEntry::new(".git/config", EntryKind::File, EntryStatus::Equal),
        CompareEntry::new("src/.env", EntryKind::File, EntryStatus::Different),
        CompareEntry::new("src/main.rs", EntryKind::File, EntryStatus::Different),
    ];
    let f = CompareFoundation::from_compare_entries(&entries);
    let overrides = ExpansionOverrides::new();
    let hidden_off = project_compare_tree_rows(&f, &CompareFocusPath::root(), false, &overrides);
    let paths: Vec<&str> = hidden_off.iter().map(|r| r.relative_path.as_str()).collect();
    assert_eq!(paths, vec!["src", "src/main.rs"]);
    let hidden_on = project_compare_tree_rows(&f, &CompareFocusPath::root(), true, &overrides);
    let paths: Vec<&str> = hidden_on.iter().map(|r| r.relative_path.as_str()).collect();
    assert_eq!(paths, vec![".git", ".git/config", "src", "src/.env", "src/main.rs"]);
}

#[test]
fn navigator_tree_leaves_out_hidden_entries() {
    let entries = vec![
        CompareEntry::new(".git/config", EntryKind::File, EntryStatus::Equal),
        CompareEntry::new("src/.env", EntryKind::File, EntryStatus::Different),
        CompareEntry::new("src/main.rs", EntryKind::File, EntryStatus::Different),
    ];
    let f = CompareFoundation::from_compare_entries(&entries);
    let overrides = ExpansionOverrides::new();
    let off = project_navigator_tree_rows(&f, false, "", &overrides);
    let paths: Vec<&str> = off.rows.iter().map(|r| r.relative_path.as_str()).collect();
    assert_eq!(paths, vec!["src", "src/main.rs"]);
    let on = project_navigator_tree_rows(&f, true, "", &overrides);
    let paths: Vec<&str> = on.rows.iter().map(|r| r.relative_path.as_str()).collect();
    assert_eq!(paths, vec![".git", ".git/config", "src", "src/.env", "src/main.rs"]);
}

#[test]
fn recorded_expansion_choice_wins_over_default() {
    let mut ov = ExpansionOverrides::new();
    assert!(compare_tree_expansion_state("src", 1, &ov));
    assert!(!compare_tree_expansion_state("src/bin", 2, &ov));
    ov.insert("src", false);
    ov.insert("src/bin", true);
    assert!(!compare_tree_expansion_state("src", 1, &ov));
    assert!(compare_tree_expansion_state("src/bin", 2, &ov));
    assert!(compare_tree_expansion_state("docs", 1, &ov));
    ov.insert("src", true);
    assert_eq!(ov.get("src"), Some(true));
}

#[test]
fn navigator_leaves_pass_the_status_filter() {
    let entries = vec![
        CompareEntry::new("a/x.rs", EntryKind::File, EntryStatus::Equal),
        CompareEntry::new("a/y.rs", EntryKind::File, EntryStatus::Different),
        CompareEntry::new("b/z.rs", EntryKind::File, EntryStatus::LeftOnly),
    ];
    let f = CompareFoundation::from_compare_entries(&entries);
    let overrides = ExpansionOverrides::new();
    let p = project_navigator_tree_rows(&f, false, " Equal ", &overrides);
    let paths: Vec<&str> = p.rows.iter().map(|r| r.relative_path.as_str()).collect();
    assert_eq!(paths, vec!["a", "a/x.rs"]);
    for r in &p.rows {
        if !r.is_expandable {
            assert!(r.source_index.is_some());
            assert!(r.display_status.eq_ignore_ascii_case("equal"));
        }
    }
    assert_eq!(p.selectable_source_indices.iter().copied().collect::<Vec<_>>(), vec![0]);
}

#[test]
fn navigator_selectable_set_is_every_kept_file_entry() {
    let entries = vec![
        CompareEntry::new("a/b/deep.rs", EntryKind::File, EntryStatus::Different),
        CompareEntry::new("a/x.rs", EntryKind::File, EntryStatus::Equal),
        CompareEntry::new("a/.hidden.rs", EntryKind::File, EntryStatus::Different),
        CompareEntry::new("top.rs", EntryKind::File, EntryStatus::Different),
    ];
    let f = CompareFoundation::from_compare_entries(&entries);
    let mut overrides = ExpansionOverrides::new();
    overrides.insert("a", false);
    let p = project_navigator_tree_rows(&f, false, "different", &overrides);
    let paths: Vec<&str> = p.rows.iter().map(|r| r.relative_path.as_str()).collect();
    assert_eq!(paths, vec!["a", "top.rs"]);
    let sel: Vec<usize> = p.selectable_source_indices.iter().copied().collect();
    assert_eq!(sel, vec![0, 3]);
    let shown = project_navigator_tree_rows(&f, true, "different", &overrides);
    let sel: Vec<usize> = shown.selectable_source_indices.iter().copied().collect();
    assert_eq!(sel, vec![0, 2, 3]);
}

#[test]
fn compare_tree_shows_exactly_the_opened_descendants_of_the_focus() {
    let entries = vec![
        CompareEntry::new("src/a/deep.rs", EntryKind::File, EntryStatus::Equal),
        CompareEntry::new("src/b/other.rs", EntryKind::File, EntryStatus::Different),
        CompareEntry::new("src/main.rs", EntryKind::File, EntryStatus::Different),
        CompareEntry::new("docs/readme.md", EntryKind::File, EntryStatus::Equal),
    ];
    let f = CompareFoundation::from_compare_entries(&entries);
    let mut overrides = ExpansionOverrides::new();
    overrides.insert("src/a", true);
    let rows = project_compare_tree_rows(&f, &CompareFocusPath::root(), false, &overrides);
    let paths: Vec<&str> = rows.iter().map(|r| r.relative_path.as_str()).collect();
    assert_eq!(
        paths,
        vec!["docs", "docs/readme.md", "src", "src/a", "src/a/deep.rs", "src/b", "src/main.rs"]
    );
    let depths: Vec<u16> = rows.iter().map(|r| r.depth).collect();
    assert_eq!(depths, vec![0, 1, 0, 1, 2, 1, 1]);
    let b = &rows[5];
    assert!(b.is_directory && b.is_expandable && !b.is_expanded);
    overrides.insert("src", false);
    let rows = project_compare_tree_rows(&f, &CompareFocusPath::root(), false, &overrides);
    let paths: Vec<&str> = rows.iter().map(|r| r.relative_path.as_str()).collect();
    assert_eq!(paths, vec!["docs", "docs/readme.md", "src"]);
}
