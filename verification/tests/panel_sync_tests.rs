use fc_ui::panel_sync::{should_refresh_compare_file_models, should_refresh_diff_models};
use fc_ui::view_models::{
    CompareFilePanelViewModel, CompareFileRowViewModel, DiffHunkViewModel, DiffLineViewModel,
    DiffPanelViewModel,
};

fn diff(content: &str) -> DiffPanelViewModel {
    DiffPanelViewModel {
        relative_path: "a.rs".to_string(),
        summary_text: "s".to_string(),
        hunks: vec![DiffHunkViewModel {
            old_start: 1,
            old_len: 1,
            new_start: 1,
            new_len: 1,
            lines: vec![DiffLineViewModel {
                old_line_no: Some(1),
                new_line_no: Some(1),
                kind: "Context".to_string(),
                content: content.to_string(),
            }],
        }],
        warning: None,
        truncated: false,
    }
}

#[test]
fn diff_models_refresh_when_the_selected_diff_changes() {
    let a = Some(diff("x"));
    assert!(should_refresh_diff_models(None, &a));
    assert!(!should_refresh_diff_models(Some(&a), &a.clone()));
    assert!(should_refresh_diff_models(Some(&a), &Some(diff("y"))));
    assert!(should_refresh_diff_models(Some(&a), &None));
    assert!(!should_refresh_diff_models(Some(&None), &None));
}

#[test]
fn compare_file_models_refresh_on_panel_or_activity_change() {
    let panel = Some(CompareFilePanelViewModel {
        relative_path: "a.rs".to_string(),
        rows: vec![CompareFileRowViewModel { left_text: "l".to_string(), ..Default::default() }],
        ..Default::default()
    });
    assert!(should_refresh_compare_file_models(None, &panel, true));
    assert!(!should_refresh_compare_file_models(Some((&panel, true)), &panel.clone(), true));
    assert!(should_refresh_compare_file_models(Some((&panel, false)), &panel.clone(), true));
    let mut other = panel.clone();
    other.as_mut().unwrap().rows[0].left_text = "m".to_string();
    assert!(should_refresh_compare_file_models(Some((&panel, true)), &other, true));
}
