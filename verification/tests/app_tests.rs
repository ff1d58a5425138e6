use fc_ui::layout::{
    compare_file_left_content_width_px, compare_file_right_content_width_px,
    estimate_compare_file_text_width_px,
};
use fc_ui::loading_mask::{derive_loading_mask_projection, LoadingMaskProjection, LoadingMaskState};
use fc_ui::sync_policy::{
    copy_feedback, plan_window_sync, should_skip_sync, should_sync_editable_inputs, AppState, SyncMode, ToastTone,
};
use fc_ui::view_models::CompareFileRowViewModel;

#[test]
fn passive_mode_does_not_sync_editable_inputs() {
    assert!(!should_sync_editable_inputs(SyncMode::Passive));
}

#[test]
fn programmatic_inputs_mode_syncs_editable_inputs() {
    assert!(should_sync_editable_inputs(SyncMode::ProgrammaticInputs));
}

#[test]
fn full_mode_syncs_editable_inputs() {
    assert!(should_sync_editable_inputs(SyncMode::Full));
}

#[test]
fn unchanged_state_should_skip_sync() {
    let state = AppState::default();
    assert!(should_skip_sync(Some(&state), &state));
}

#[test]
fn changed_state_should_not_skip_sync() {
    let previous = AppState::default();
    let next = AppState {
        running: true,
        ..AppState::default()
    };
    assert!(!should_skip_sync(Some(&previous), &next));
}

#[test]
fn loading_mask_projection_follows_scope_boundary() {
    let idle = derive_loading_mask_projection(false, false, false, false);
    assert_eq!(idle, LoadingMaskProjection::default());

    let running = derive_loading_mask_projection(true, false, false, false);
    assert_eq!(
        running,
        LoadingMaskProjection {
            sidebar_visible: true,
            workspace_visible: true,
            message: "Comparing folders...",
        }
    );

    let diff = derive_loading_mask_projection(false, true, false, false);
    assert_eq!(
        diff,
        LoadingMaskProjection {
            sidebar_visible: false,
            workspace_visible: true,
            message: "Loading diff...",
        }
    );

    let analysis = derive_loading_mask_projection(false, false, true, false);
    assert_eq!(
        analysis,
        LoadingMaskProjection {
            sidebar_visible: false,
            workspace_visible: true,
            message: "Running AI analysis...",
        }
    );
}

#[test]
fn loading_mask_projection_uses_timeout_copy() {
    let projection = derive_loading_mask_projection(false, true, false, true);
    assert_eq!(
        projection,
        LoadingMaskProjection {
            sidebar_visible: false,
            workspace_visible: true,
            message: "Taking longer than expected...",
        }
    );
}

#[test]
fn loading_mask_state_resets_timeout_on_phase_change() {
    let mut state = LoadingMaskState::default();
    let (started, generation) = state.advance(false, true, false);
    let started = started.expect("first diff-loading projection should be emitted");
    assert_eq!(started.message, "Loading diff...");
    let generation = generation.expect("diff-loading phase should schedule a timeout");

    let timed_out = state
        .trigger_timeout(generation)
        .expect("timeout transition should emit degraded copy");
    assert_eq!(timed_out.message, "Taking longer than expected...");

    let (analysis_reset, _) = state.advance(false, false, true);
    let analysis_reset = analysis_reset.expect("phase switch should reset timeout copy");
    assert_eq!(analysis_reset.message, "Running AI analysis...");
}

#[test]
fn compare_file_content_width_tracks_wide_cjk_lines() {
    let ascii = estimate_compare_file_text_width_px("aaaaaaaa");
    let cjk = estimate_compare_file_text_width_px("测试测试测试测试");
    assert!(cjk > ascii);
}

#[test]
fn compare_file_content_width_tracks_each_side_independently() {
    let rows = vec![
        CompareFileRowViewModel {
            left_text: "short".to_string(),
            right_text: "also short".to_string(),
            ..Default::default()
        },
        CompareFileRowViewModel {
            left_text: "非常长的比较行，用来验证横向滚动范围".to_string(),
            right_text: String::new(),
            ..Default::default()
        },
    ];

    assert_eq!(
        compare_file_left_content_width_px(&rows),
        estimate_compare_file_text_width_px("非常长的比较行，用来验证横向滚动范围")
    );
    assert_eq!(
        compare_file_right_content_width_px(&rows),
        estimate_compare_file_text_width_px("also short")
    );
}

#[test]
fn copy_feedback_names_the_copied_thing() {
    assert_eq!(copy_feedback(true, " Path "), ("Path copied".to_string(), ToastTone::Info));
    assert_eq!(copy_feedback(true, "  "), ("Copied".to_string(), ToastTone::Info));
    assert_eq!(copy_feedback(false, "Path"), ("Copy failed".to_string(), ToastTone::Error));
}

#[test]
fn window_sync_plan_skips_repeats_and_closes_menu_on_row_change() {
    let first = AppState { selected_row: Some(1), ..AppState::default() };
    let plan = plan_window_sync(None, &first);
    assert!(!plan.skip);
    assert!(!plan.close_context_menu);
    let plan = plan_window_sync(Some(&first), &first);
    assert!(plan.skip);
    assert!(!plan.close_context_menu);
    let moved = AppState { selected_row: Some(2), ..first };
    let plan = plan_window_sync(Some(&first), &moved);
    assert!(!plan.skip);
    assert!(plan.close_context_menu);
    let revised = AppState { navigator_flat_projection_revision: 5, ..first };
    let plan = plan_window_sync(Some(&first), &revised);
    assert!(!plan.skip);
    assert!(!plan.close_context_menu);
}
