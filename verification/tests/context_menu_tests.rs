use fc_ui::context_menu::{
    resolve_context_menu_activation, ContextMenuActivation,
    build_action_specs, build_results_row_payload, should_close_for_sync_transition,
    ContextMenuCustomActionDescriptor, ContextMenuSyncState, ContextMenuTextPayload,
    CONTEXT_MENU_COPY_ACTION_ID, CONTEXT_MENU_COPY_SUMMARY_ACTION_ID,
};

#[test]
fn build_action_specs_truncates_custom_actions_after_ten() {
    let payload = ContextMenuTextPayload {
        copy_text: "full".to_string(),
        summary_text: "summary".to_string(),
        copy_feedback_label: "Copy".to_string(),
        summary_feedback_label: "Summary".to_string(),
    };
    let custom_actions = (0..12)
        .map(|index| ContextMenuCustomActionDescriptor {
            label: format!("Custom {index}"),
            action_id: format!("custom-{index}"),
            enabled: index % 2 == 0,
        })
        .collect::<Vec<_>>();

    let result = build_action_specs(&payload, &custom_actions);

    assert_eq!(result.actions.len(), 12);
    assert_eq!(result.truncated_custom_count, 2);
    assert_eq!(result.actions[0].action_id, CONTEXT_MENU_COPY_ACTION_ID);
    assert_eq!(
        result.actions[1].action_id,
        CONTEXT_MENU_COPY_SUMMARY_ACTION_ID
    );
    assert_eq!(
        result
            .actions
            .last()
            .map(|action| action.action_id.as_str()),
        Some("custom-9")
    );
}

#[test]
fn results_row_payload_exports_full_and_summary_copy_text() {
    let payload =
        build_results_row_payload("src/main.rs", "different", "hunks=2 +4 -1 ctx=8", false);

    assert!(payload.copy_text.contains("File\nsrc/main.rs"));
    assert!(payload.copy_text.contains("Status\nChanged"));
    assert!(payload.summary_text.contains("Result Summary"));
    assert!(payload.summary_text.contains("src/main.rs"));
}

#[test]
fn sync_transition_closes_on_selected_row_or_busy_start() {
    let previous = ContextMenuSyncState {
        selected_row: Some(1),
        running: false,
        diff_loading: false,
        analysis_loading: false,
    };
    let next_selected_row = ContextMenuSyncState {
        selected_row: Some(2),
        ..previous
    };
    let next_running = ContextMenuSyncState {
        running: true,
        ..previous
    };

    assert!(should_close_for_sync_transition(
        previous,
        next_selected_row
    ));
    assert!(should_close_for_sync_transition(previous, next_running));
    assert!(!should_close_for_sync_transition(previous, previous));
}

#[test]
fn activation_resolves_copy_and_custom_actions() {
    let payload = ContextMenuTextPayload {
        copy_text: "full".to_string(),
        summary_text: "  ".to_string(),
        copy_feedback_label: "Path".to_string(),
        summary_feedback_label: "Summary".to_string(),
    };
    let customs = vec![
        ContextMenuCustomActionDescriptor {
            label: "Open".to_string(),
            action_id: "open".to_string(),
            enabled: false,
        },
        ContextMenuCustomActionDescriptor {
            label: "Open again".to_string(),
            action_id: "open".to_string(),
            enabled: true,
        },
    ];
    assert_eq!(
        resolve_context_menu_activation(" copy ", "row:1", &payload, &customs),
        ContextMenuActivation::Copy {
            text: "full".to_string(),
            feedback_label: "Path".to_string()
        }
    );
    assert_eq!(
        resolve_context_menu_activation("copy-summary", "row:1", &payload, &customs),
        ContextMenuActivation::CloseOnly
    );
    assert_eq!(
        resolve_context_menu_activation("  ", "row:1", &payload, &customs),
        ContextMenuActivation::Ignore
    );
    assert_eq!(
        resolve_context_menu_activation("missing", "row:1", &payload, &customs),
        ContextMenuActivation::Ignore
    );
    match resolve_context_menu_activation("open", "row:1", &payload, &customs) {
        ContextMenuActivation::RunCustom { index, invocation } => {
            assert_eq!(index, 1);
            assert_eq!(invocation.target_token, "row:1");
            assert_eq!(invocation.action_id, "open");
        }
        other => panic!("unexpected activation {other:?}"),
    }
}
