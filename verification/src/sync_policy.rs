//! When the window takes state from the presenter: which inputs, models and
//! scroll requests a state change refreshes.

use vstd::prelude::*;
use crate::context_menu::ContextMenuSyncState;
use crate::text;

verus! {

/// How much of the window a sync writes.
#[derive(Debug, Clone, Copy, PartialEq, Eq, Structural)]
pub enum SyncMode {
    Full,
    Passive,
    ProgrammaticInputs,
}

/// Full and programmatic syncs write the editable inputs; a passive sync keeps
/// what the user is typing.
pub fn should_sync_editable_inputs(mode: SyncMode) -> (r: bool)
    ensures
        r == (mode == SyncMode::Full || mode == SyncMode::ProgrammaticInputs),
{
    match mode {
        SyncMode::Full | SyncMode::ProgrammaticInputs => true,
        SyncMode::Passive => false,
    }
}

/// The presenter state as the sync policies read it: the busy flags, the
/// selected row, and the revision counters of the projections and scroll
/// requests.
#[derive(Debug, Clone, Copy, PartialEq, Eq, Default, Structural)]
pub struct AppState {
    pub running: bool,
    pub diff_loading: bool,
    pub analysis_loading: bool,
    pub selected_row: Option<usize>,
    pub navigator_flat_projection_revision: u64,
    pub navigator_tree_projection_revision: u64,
    pub navigator_flat_scroll_request_revision: u64,
    pub navigator_tree_scroll_request_revision: u64,
    pub compare_view_projection_revision: u64,
    pub compare_view_scroll_request_revision: u64,
}

/// A sync is skipped when the state is the one synced last.
pub fn should_skip_sync(last_state: Option<&AppState>, next_state: &AppState) -> (r: bool)
    ensures
        r == (last_state == Some(next_state)),
{
    match last_state {
        Some(last) => *last == *next_state,
        None => false,
    }
}

/// Refresh when there is no previous state or the revision moved.
pub open spec fn refresh_on(last: Option<u64>, next: u64) -> bool {
    match last {
        None => true,
        Some(l) => l != next,
    }
}

/// Apply a scroll request when its revision moved, or, on a first sync, when one was made.
pub open spec fn scroll_on(last: Option<u64>, next: u64) -> bool {
    match last {
        None => next != 0,
        Some(l) => l != next,
    }
}

/// Flat navigator models are rebuilt when their projection revision moves.
pub fn should_refresh_flat_result_models(last_state: Option<&AppState>, next_state: &AppState) -> (r:
    bool)
    ensures
        r == refresh_on(
            match last_state {
                Some(l) => Some(l.navigator_flat_projection_revision),
                None => None,
            },
            next_state.navigator_flat_projection_revision,
        ),
{
    match last_state {
        None => true,
        Some(last) => last.navigator_flat_projection_revision
            != next_state.navigator_flat_projection_revision,
    }
}

/// Tree navigator models are rebuilt when their projection revision moves.
pub fn should_refresh_tree_result_models(last_state: Option<&AppState>, next_state: &AppState) -> (r:
    bool)
    ensures
        r == refresh_on(
            match last_state {
                Some(l) => Some(l.navigator_tree_projection_revision),
                None => None,
            },
            next_state.navigator_tree_projection_revision,
        ),
{
    match last_state {
        None => true,
        Some(last) => last.navigator_tree_projection_revision
            != next_state.navigator_tree_projection_revision,
    }
}

/// A flat-list scroll request applies when its revision moves.
pub fn should_apply_flat_scroll_request(last_state: Option<&AppState>, next_state: &AppState) -> (r:
    bool)
    ensures
        r == scroll_on(
            match last_state {
                Some(l) => Some(l.navigator_flat_scroll_request_revision),
                None => None,
            },
            next_state.navigator_flat_scroll_request_revision,
        ),
{
    match last_state {
        None => next_state.navigator_flat_scroll_request_revision != 0,
        Some(last) => last.navigator_flat_scroll_request_revision
            != next_state.navigator_flat_scroll_request_revision,
    }
}

/// A tree scroll request applies when its revision moves.
pub fn should_apply_tree_scroll_request(last_state: Option<&AppState>, next_state: &AppState) -> (r:
    bool)
    ensures
        r == scroll_on(
            match last_state {
                Some(l) => Some(l.navigator_tree_scroll_request_revision),
                None => None,
            },
            next_state.navigator_tree_scroll_request_revision,
        ),
{
    match last_state {
        None => next_state.navigator_tree_scroll_request_revision != 0,
        Some(last) => last.navigator_tree_scroll_request_revision
            != next_state.navigator_tree_scroll_request_revision,
    }
}

/// Compare View models are rebuilt when their projection revision moves.
pub fn should_refresh_compare_view_models(last_state: Option<&AppState>, next_state: &AppState) -> (r:
    bool)
    ensures
        r == refresh_on(
            match last_state {
                Some(l) => Some(l.compare_view_projection_revision),
                None => None,
            },
            next_state.compare_view_projection_revision,
        ),
{
    match last_state {
        None => true,
        Some(last) => last.compare_view_projection_revision
            != next_state.compare_view_projection_revision,
    }
}

/// A Compare View scroll request applies when its revision moves.
pub fn should_apply_compare_scroll_request(last_state: Option<&AppState>, next_state: &AppState) -> (r:
    bool)
    ensures
        r == scroll_on(
            match last_state {
                Some(l) => Some(l.compare_view_scroll_request_revision),
                None => None,
            },
            next_state.compare_view_scroll_request_revision,
        ),
{
    match last_state {
        None => next_state.compare_view_scroll_request_revision != 0,
        Some(last) => last.compare_view_scroll_request_revision
            != next_state.compare_view_scroll_request_revision,
    }
}

/// The parts of the state that decide whether an open context menu closes.
pub open spec fn menu_state_of(state: AppState) -> ContextMenuSyncState {
    ContextMenuSyncState {
        selected_row: state.selected_row,
        running: state.running,
        diff_loading: state.diff_loading,
        analysis_loading: state.analysis_loading,
    }
}

pub fn derive_context_menu_sync_state(state: &AppState) -> (r: ContextMenuSyncState)
    ensures
        r == menu_state_of(*state),
{
    ContextMenuSyncState {
        selected_row: state.selected_row,
        running: state.running,
        diff_loading: state.diff_loading,
        analysis_loading: state.analysis_loading,
    }
}

/// What one window sync does before it writes the window.
#[derive(Debug, Clone, Copy, PartialEq, Eq, Structural)]
pub struct WindowSyncPlan {
    /// The state is the one synced last: nothing is written.
    pub skip: bool,
    /// An open context menu closes first.
    pub close_context_menu: bool,
}

/// A sync of `next` after `last`: skipped when nothing changed; otherwise an
/// open menu closes when the selected row changed or a run started.
pub fn plan_window_sync(last_state: Option<&AppState>, next_state: &AppState) -> (r: WindowSyncPlan)
    ensures
        r.skip == (last_state == Some(next_state)),
        r.close_context_menu == (!r.skip && match last_state {
            Some(last) => crate::context_menu::closes_on(
                menu_state_of(*last),
                menu_state_of(*next_state),
            ),
            None => false,
        }),
{
    if should_skip_sync(last_state, next_state) {
        return WindowSyncPlan { skip: true, close_context_menu: false };
    }
    let close = match last_state {
        Some(last) => crate::context_menu::should_close_for_sync_transition(
            derive_context_menu_sync_state(last),
            derive_context_menu_sync_state(next_state),
        ),
        None => false,
    };
    WindowSyncPlan { skip: false, close_context_menu: close }
}

/// Against an unchanged previous state no model refreshes and no scroll
/// request applies.
pub proof fn lemma_unchanged_state_is_quiet(s: AppState)
    ensures
        !refresh_on(Some(s.navigator_flat_projection_revision), s.navigator_flat_projection_revision),
        !refresh_on(Some(s.navigator_tree_projection_revision), s.navigator_tree_projection_revision),
        !refresh_on(Some(s.compare_view_projection_revision), s.compare_view_projection_revision),
        !scroll_on(
            Some(s.navigator_flat_scroll_request_revision),
            s.navigator_flat_scroll_request_revision,
        ),
        !scroll_on(
            Some(s.navigator_tree_scroll_request_revision),
            s.navigator_tree_scroll_request_revision,
        ),
        !scroll_on(
            Some(s.compare_view_scroll_request_revision),
            s.compare_view_scroll_request_revision,
        ),
{
}

/// Tone of a toast message.
#[derive(Debug, Clone, Copy, PartialEq, Eq, Structural)]
pub enum ToastTone {
    Success,
    Warn,
    Error,
    Info,
}

/// The style token of a toast tone.
pub fn toast_tone_token(tone: ToastTone) -> (r: &'static str)
    ensures
        r@ == match tone {
            ToastTone::Success => "success"@,
            ToastTone::Warn => "warn"@,
            ToastTone::Error => "error"@,
            ToastTone::Info => "info"@,
        },
{
    match tone {
        ToastTone::Success => "success",
        ToastTone::Warn => "warn",
        ToastTone::Error => "error",
        ToastTone::Info => "info",
    }
}

/// The toast after a copy: `"{label} copied"` (plain `"Copied"` for a blank
/// label) as information, or `"Copy failed"` as an error.
pub open spec fn copy_feedback_spec(copied: bool, label: Seq<char>) -> (Seq<char>, ToastTone) {
    if copied {
        if text::trim(label).len() == 0 {
            ("Copied"@, ToastTone::Info)
        } else {
            (text::trim(label) + " copied"@, ToastTone::Info)
        }
    } else {
        ("Copy failed"@, ToastTone::Error)
    }
}

pub fn copy_feedback(copied: bool, feedback_label: &str) -> (r: (String, ToastTone))
    ensures
        (r.0@, r.1) == copy_feedback_spec(copied, feedback_label@),
{
    if !copied {
        return (text::to_string("Copy failed"), ToastTone::Error);
    }
    let c = text::chars_of(feedback_label);
    let mut t = text::trim_chars(&c, text::TrimClass::Whitespace);
    if t.len() == 0 {
        return (text::to_string("Copied"), ToastTone::Info);
    }
    text::push_str(&mut t, " copied");
    (text::string_from_chars(&t), ToastTone::Info)
}

} // verus!
