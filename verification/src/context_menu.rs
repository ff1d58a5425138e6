//! Shared context-menu helpers for the non-input UI surfaces: action lists,
//! copy payloads and when an open menu closes.

use vstd::prelude::*;
use crate::compare_foundation::opt_view;
use crate::text;
use crate::text::{TrimClass, chars_of, push_all, push_str, string_from_chars, trim};

verus! {

pub const CONTEXT_MENU_COPY_ACTION_ID: &'static str = "copy";

pub const CONTEXT_MENU_COPY_SUMMARY_ACTION_ID: &'static str = "copy-summary";

pub const MAX_CONTEXT_MENU_CUSTOM_ACTIONS: usize = 10;

pub const RESULTS_LOCATE_AND_OPEN_ACTION_ID: &'static str = "results-locate-and-open";

pub const RESULTS_OPEN_IN_COMPARE_VIEW_ACTION_ID: &'static str = "results-open-in-compare-view";

/// One entry of a context menu.
#[derive(Debug, Clone, PartialEq, Eq)]
pub struct ContextMenuActionSpec {
    pub label: String,
    pub action_id: String,
    pub enabled: bool,
}

/// What a surface offers as an extra menu action.
#[derive(Debug, Clone, PartialEq, Eq)]
pub struct ContextMenuCustomActionDescriptor {
    pub label: String,
    pub action_id: String,
    pub enabled: bool,
}

/// Which action was picked, on which target.
#[derive(Debug, Clone, PartialEq, Eq)]
pub struct ContextMenuInvocation {
    pub target_token: String,
    pub action_id: String,
}

/// The full and the summary text that the copy actions put on the clipboard.
#[derive(Debug, Clone, PartialEq, Eq, Default)]
pub struct ContextMenuTextPayload {
    pub copy_text: String,
    pub summary_text: String,
    pub copy_feedback_label: String,
    pub summary_feedback_label: String,
}

impl ContextMenuTextPayload {
    /// Copy is offered when there is text to copy.
    pub fn copy_enabled(&self) -> (r: bool)
        ensures
            r == (trim(self.copy_text@).len() > 0),
    {
        !text::is_blank(self.copy_text.as_str())
    }

    /// Copy Summary is offered when there is a summary to copy.
    pub fn summary_enabled(&self) -> (r: bool)
        ensures
            r == (trim(self.summary_text@).len() > 0),
    {
        !text::is_blank(self.summary_text.as_str())
    }
}

/// The actions of a menu, and how many valid custom actions did not fit.
#[derive(Debug, Clone, PartialEq, Eq)]
pub struct ContextMenuBuildResult {
    pub actions: Vec<ContextMenuActionSpec>,
    pub truncated_custom_count: usize,
}

/// The parts of the window state whose change closes an open menu.
#[derive(Debug, Clone, Copy, PartialEq, Eq, Default, Structural)]
pub struct ContextMenuSyncState {
    pub selected_row: Option<usize>,
    pub running: bool,
    pub diff_loading: bool,
    pub analysis_loading: bool,
}

// ---------------------------------------------------------------------------
// Text helpers
// ---------------------------------------------------------------------------

/// The trimmed text, when it is not blank.
pub open spec fn norm_text(raw: Seq<char>) -> Option<Seq<char>> {
    if trim(raw).len() > 0 {
        Some(trim(raw))
    } else {
        None
    }
}

pub open spec fn or_else(o: Option<Seq<char>>, d: Seq<char>) -> Seq<char> {
    match o {
        Some(v) => v,
        None => d,
    }
}

/// The trimmed text, or `None` when it is blank.
pub fn normalize_text(raw: &str) -> (r: Option<String>)
    ensures
        opt_view(r) == norm_text(raw@),
{
    let t = text::trim_str(raw);
    if t.as_str().unicode_len() > 0 {
        Some(t)
    } else {
        None
    }
}

fn text_or(o: Option<String>, fallback: &str) -> (r: String)
    ensures
        r@ == or_else(opt_view(o), fallback@),
{
    match o {
        Some(v) => v,
        None => text::to_string(fallback),
    }
}

/// The label shown for a status token.
pub open spec fn status_label(token: Seq<char>) -> Seq<char> {
    let t = trim(token);
    if t == "different"@ {
        "Changed"@
    } else if t == "equal"@ {
        "Equal"@
    } else if t == "left-only"@ {
        "Left Only"@
    } else if t == "right-only"@ {
        "Right Only"@
    } else if t == "pending"@ {
        "Pending"@
    } else if t == "skipped"@ {
        "Unavailable"@
    } else if t.len() > 0 {
        t
    } else {
        "Unavailable"@
    }
}

/// A known status token: changed, equal, on one side only, or pending.
pub open spec fn known_status_token(t: Seq<char>) -> bool {
    t == "different"@ || t == "equal"@ || t == "left-only"@ || t == "right-only"@ || t == "pending"@
}

/// Each known status token, whatever white space surrounds it, has its own
/// label: a one-sided status names its own side, and no two known statuses
/// share a label.
pub proof fn lemma_status_labels(t: Seq<char>, u: Seq<char>)
    ensures
        trim(t) == "left-only"@ ==> status_label(t) == "Left Only"@,
        trim(t) == "right-only"@ ==> status_label(t) == "Right Only"@,
        trim(t) == "different"@ ==> status_label(t) == "Changed"@,
        trim(t) == "equal"@ ==> status_label(t) == "Equal"@,
        trim(t) == "pending"@ ==> status_label(t) == "Pending"@,
        trim(t) == "skipped"@ || trim(t).len() == 0 ==> status_label(t) == "Unavailable"@,
        !known_status_token(trim(t)) && trim(t) != "skipped"@ && trim(t).len() > 0 ==> status_label(t)
            == trim(t),
        known_status_token(trim(t)) && known_status_token(trim(u)) && trim(t) != trim(u)
            ==> status_label(t) != status_label(u),
{
    reveal_strlit("different");
    reveal_strlit("equal");
    reveal_strlit("left-only");
    reveal_strlit("right-only");
    reveal_strlit("pending");
    reveal_strlit("skipped");
    reveal_strlit("Changed");
    reveal_strlit("Equal");
    reveal_strlit("Left Only");
    reveal_strlit("Right Only");
    reveal_strlit("Pending");
    assert("different"@[0] != "equal"@[0]);
    assert("left-only"@[0] != "right-only"@[0]);
    assert("Left Only"@[0] != "Right Only"@[0]);
    assert("Changed"@[0] != "Equal"@[0]);
    let sk = "skipped"@;
    assert(sk[0] != "different"@[0] && sk[0] != "equal"@[0] && sk[0] != "left-only"@[0]
        && sk[0] != "right-only"@[0] && sk[0] != "pending"@[0]);
    assert(sk != "different"@ && sk != "equal"@ && sk != "left-only"@ && sk != "right-only"@
        && sk != "pending"@);
}

/// The human label of a status token; other tokens show trimmed, blank ones as unavailable.
pub fn display_status_label(status_token: &str) -> (r: String)
    ensures
        r@ == status_label(status_token@),
{
    let t = text::trim_str(status_token);
    let v = chars_of(t.as_str());
    if text::chars_eq_str(&v, "different") {
        text::to_string("Changed")
    } else if text::chars_eq_str(&v, "equal") {
        text::to_string("Equal")
    } else if text::chars_eq_str(&v, "left-only") {
        text::to_string("Left Only")
    } else if text::chars_eq_str(&v, "right-only") {
        text::to_string("Right Only")
    } else if text::chars_eq_str(&v, "pending") {
        text::to_string("Pending")
    } else if text::chars_eq_str(&v, "skipped") {
        text::to_string("Unavailable")
    } else if v.len() > 0 {
        t
    } else {
        text::to_string("Unavailable")
    }
}

/// A character that ends a sentence, ASCII or full-width.
pub open spec fn is_sentence_end(c: char) -> bool {
    c == '.' || c == '!' || c == '?' || c == '\u{3002}' || c == '\u{FF01}' || c == '\u{FF1F}'
}

/// Index of the first sentence end at or after `i`.
pub open spec fn first_end_from(s: Seq<char>, i: int) -> Option<int>
    decreases s.len() - i,
{
    if i >= s.len() || i < 0 {
        None
    } else if is_sentence_end(s[i]) {
        Some(i)
    } else {
        first_end_from(s, i + 1)
    }
}

/// `abbreviate_middle`: the head, an ellipsis and the tail, when the text is
/// longer than both the limit and head plus tail plus one.
pub open spec fn abbreviate(s: Seq<char>, max: int, head: int, tail: int) -> Seq<char> {
    if s.len() <= max || s.len() <= head + tail + 1 {
        s
    } else {
        s.take(head) + seq!['\u{2026}'] + s.skip(s.len() - tail)
    }
}

/// `sentence_excerpt`: the first sentence of the trimmed text (the whole
/// text when it has no sentence end), abbreviated in the middle when longer
/// than `max` characters.
pub open spec fn excerpt(text: Seq<char>, max: usize) -> Seq<char> {
    let t = trim(text);
    if t.len() == 0 {
        Seq::empty()
    } else {
        let e = match first_end_from(t, 0) {
            Some(p) => if trim(t.take(p + 1)).len() > 0 {
                trim(t.take(p + 1))
            } else {
                t
            },
            None => t,
        };
        if e.len() <= max {
            e
        } else {
            abbreviate(e, max as int, max.saturating_sub(24) as int, 20)
        }
    }
}

/// Keeps `head_chars` leading and `tail_chars` trailing characters with an
/// ellipsis between, when the text is long enough to shorten.
pub fn abbreviate_middle(text: &str, max_chars: usize, head_chars: usize, tail_chars: usize) -> (r:
    String)
    ensures
        r@ == abbreviate(text@, max_chars as int, head_chars as int, tail_chars as int),
{
    let chars = chars_of(text);
    let n = chars.len();
    if n <= max_chars || (n as u128) <= (head_chars as u128) + (tail_chars as u128) + 1 {
        return text::to_string(text);
    }
    let mut out = text::slice_chars(&chars, 0, head_chars);
    out.push('\u{2026}');
    let tail = text::slice_chars(&chars, n - tail_chars, n);
    push_all(&mut out, &tail);
    proof {
        assert(out@ =~= text@.take(head_chars as int) + seq!['\u{2026}'] + text@.skip(
            n - tail_chars,
        ));
    }
    string_from_chars(&out)
}

/// The first sentence of the trimmed text, shortened to `max_chars`.
pub fn sentence_excerpt(text: &str, max_chars: usize) -> (r: String)
    ensures
        r@ == excerpt(text@, max_chars),
{
    let t = text::trim_chars(&chars_of(text), TrimClass::Whitespace);
    if t.len() == 0 {
        return String::new();
    }
    let mut boundary: Option<usize> = None;
    let mut i: usize = 0;
    while i < t.len()
        invariant_except_break
            boundary is None,
        invariant
            i <= t@.len(),
            first_end_from(t@, 0) == first_end_from(t@, i as int),
        ensures
            boundary matches Some(e) ==> e >= 1 && e <= t@.len() && first_end_from(t@, 0) == Some(
                e - 1,
            ),
            boundary is None ==> first_end_from(t@, 0) is None,
        decreases t@.len() - i,
    {
        let c = t[i];
        if c == '.' || c == '!' || c == '?' || c == '\u{3002}' || c == '\u{FF01}' || c == '\u{FF1F}' {
            boundary = Some(i + 1);
            break;
        }
        i = i + 1;
    }
    let excerpt_chars = match boundary {
        Some(end) => {
            let head = text::slice_chars(&t, 0, end);
            let h = text::trim_chars(&head, TrimClass::Whitespace);
            proof {
                assert(t@.subrange(0, end as int) =~= t@.take(end as int));
            }
            if h.len() > 0 {
                h
            } else {
                t
            }
        },
        None => t,
    };
    let s = string_from_chars(&excerpt_chars);
    if excerpt_chars.len() <= max_chars {
        s
    } else {
        abbreviate_middle(s.as_str(), max_chars, max_chars.saturating_sub(24), 20)
    }
}

/// The trimmed, non-blank values among `parts`, in order.
pub open spec fn summary_pieces(parts: Seq<Option<Seq<char>>>) -> Seq<Seq<char>>
    decreases parts.len(),
{
    if parts.len() == 0 {
        Seq::empty()
    } else {
        let init = summary_pieces(parts.drop_last());
        match parts.last() {
            Some(v) => if trim(v).len() > 0 {
                init.push(trim(v))
            } else {
                init
            },
            None => init,
        }
    }
}

/// `join_summary_parts`.
pub open spec fn summary_line(parts: Seq<Option<Seq<char>>>) -> Seq<char> {
    text::join_seq(summary_pieces(parts), " | "@)
}

/// `label`, a line break and the trimmed value, for each block whose value is not blank.
pub open spec fn block_pieces(blocks: Seq<(Seq<char>, Option<Seq<char>>)>) -> Seq<Seq<char>>
    decreases blocks.len(),
{
    if blocks.len() == 0 {
        Seq::empty()
    } else {
        let init = block_pieces(blocks.drop_last());
        let b = blocks.last();
        match b.1 {
            Some(v) => if trim(v).len() > 0 {
                init.push(b.0 + "\n"@ + trim(v))
            } else {
                init
            },
            None => init,
        }
    }
}

/// `join_blocks`.
pub open spec fn blocks_text(blocks: Seq<(Seq<char>, Option<Seq<char>>)>) -> Seq<char> {
    text::join_seq(block_pieces(blocks), "\n\n"@)
}

pub open spec fn opt_views(parts: Seq<Option<String>>) -> Seq<Option<Seq<char>>> {
    parts.map_values(|p: Option<String>| opt_view(p))
}

pub open spec fn block_views(blocks: Seq<(&str, Option<String>)>) -> Seq<(Seq<char>, Option<Seq<char>>)> {
    blocks.map_values(|b: (&str, Option<String>)| (b.0@, opt_view(b.1)))
}

/// The trimmed, non-blank parts joined by ` | `.
pub fn join_summary_parts(parts: &[Option<String>]) -> (r: String)
    ensures
        r@ == summary_line(opt_views(parts@)),
{
    let ghost ps = opt_views(parts@);
    let mut pieces: Vec<Vec<char>> = Vec::new();
    for i in 0..parts.len()
        invariant
            ps == opt_views(parts@),
            pieces@.map_values(|p: Vec<char>| p@) == summary_pieces(ps.take(i as int)),
    {
        proof {
            assert(ps.take(i + 1).drop_last() =~= ps.take(i as int));
            assert(ps.take(i + 1).last() == opt_view(parts@[i as int]));
        }
        let ghost before = pieces@.map_values(|p: Vec<char>| p@);
        match &parts[i] {
            Some(v) => {
                let t = text::trim_chars(&chars_of(v.as_str()), TrimClass::Whitespace);
                if t.len() > 0 {
                    pieces.push(t);
                    proof {
                        assert(pieces@.map_values(|p: Vec<char>| p@) =~= before.push(trim(v@)));
                    }
                }
            },
            None => {},
        }
    }
    proof {
        assert(ps.take(ps.len() as int) =~= ps);
    }
    let sep = chars_of(" | ");
    let joined = text::join_chars(&pieces, &sep);
    string_from_chars(&joined)
}

/// `label` and line break and value for each block with a non-blank value,
/// separated by blank lines.
pub fn join_blocks(blocks: &[(&str, Option<String>)]) -> (r: String)
    ensures
        r@ == blocks_text(block_views(blocks@)),
{
    let ghost bs = block_views(blocks@);
    let mut pieces: Vec<Vec<char>> = Vec::new();
    for i in 0..blocks.len()
        invariant
            bs == block_views(blocks@),
            pieces@.map_values(|p: Vec<char>| p@) == block_pieces(bs.take(i as int)),
    {
        proof {
            assert(bs.take(i + 1).drop_last() =~= bs.take(i as int));
            assert(bs.take(i + 1).last() == (blocks@[i as int].0@, opt_view(blocks@[i as int].1)));
        }
        let ghost before = pieces@.map_values(|p: Vec<char>| p@);
        let (label, value) = &blocks[i];
        match value {
            Some(v) => {
                let t = text::trim_chars(&chars_of(v.as_str()), TrimClass::Whitespace);
                if t.len() > 0 {
                    let mut piece = chars_of(label);
                    push_str(&mut piece, "\n");
                    push_all(&mut piece, &t);
                    pieces.push(piece);
                    proof {
                        assert(pieces@.map_values(|p: Vec<char>| p@) =~= before.push(
                            label@ + "\n"@ + trim(v@),
                        ));
                    }
                }
            },
            None => {},
        }
    }
    proof {
        assert(bs.take(bs.len() as int) =~= bs);
    }
    let sep = chars_of("\n\n");
    let joined = text::join_chars(&pieces, &sep);
    string_from_chars(&joined)
}

// ---------------------------------------------------------------------------
// Menus
// ---------------------------------------------------------------------------

/// A custom action is offered when it has a label and an id.
pub open spec fn custom_ok(d: ContextMenuCustomActionDescriptor) -> bool {
    trim(d.label@).len() > 0 && trim(d.action_id@).len() > 0
}

/// The custom actions that can be offered, in order.
pub open spec fn valid_customs(cs: Seq<ContextMenuCustomActionDescriptor>) -> Seq<
    ContextMenuCustomActionDescriptor,
>
    decreases cs.len(),
{
    if cs.len() == 0 {
        Seq::empty()
    } else {
        let init = valid_customs(cs.drop_last());
        if custom_ok(cs.last()) {
            init.push(cs.last())
        } else {
            init
        }
    }
}

/// How many valid custom actions fit in a menu.
pub open spec fn shown_count(n: int) -> int {
    if n <= MAX_CONTEXT_MENU_CUSTOM_ACTIONS {
        n
    } else {
        MAX_CONTEXT_MENU_CUSTOM_ACTIONS as int
    }
}

pub open spec fn action_is(a: ContextMenuActionSpec, label: Seq<char>, id: Seq<char>, enabled: bool) -> bool {
    a.label@ == label && a.action_id@ == id && a.enabled == enabled
}

/// Copy and Copy Summary, then the first ten custom actions that have a label
/// and an id; the result counts the valid ones that did not fit.
pub fn build_action_specs(
    payload: &ContextMenuTextPayload,
    custom_actions: &[ContextMenuCustomActionDescriptor],
) -> (r: ContextMenuBuildResult)
    ensures
        r.actions@.len() == 2 + shown_count(valid_customs(custom_actions@).len() as int),
        action_is(r.actions@[0], "Copy"@, CONTEXT_MENU_COPY_ACTION_ID@, trim(payload.copy_text@).len() > 0),
        action_is(
            r.actions@[1],
            "Copy Summary"@,
            CONTEXT_MENU_COPY_SUMMARY_ACTION_ID@,
            trim(payload.summary_text@).len() > 0,
        ),
        forall|i: int|
            0 <= i < shown_count(valid_customs(custom_actions@).len() as int) ==> action_is(
                #[trigger] r.actions@[2 + i],
                valid_customs(custom_actions@)[i].label@,
                valid_customs(custom_actions@)[i].action_id@,
                valid_customs(custom_actions@)[i].enabled,
            ),
        r.truncated_custom_count == valid_customs(custom_actions@).len() - shown_count(
            valid_customs(custom_actions@).len() as int,
        ),
{
    let mut actions: Vec<ContextMenuActionSpec> = Vec::new();
    actions.push(
        ContextMenuActionSpec {
            label: text::to_string("Copy"),
            action_id: text::to_string(CONTEXT_MENU_COPY_ACTION_ID),
            enabled: payload.copy_enabled(),
        },
    );
    actions.push(
        ContextMenuActionSpec {
            label: text::to_string("Copy Summary"),
            action_id: text::to_string(CONTEXT_MENU_COPY_SUMMARY_ACTION_ID),
            enabled: payload.summary_enabled(),
        },
    );
    let ghost cs = custom_actions@;
    let mut valid: Vec<&ContextMenuCustomActionDescriptor> = Vec::new();
    for i in 0..custom_actions.len()
        invariant
            cs == custom_actions@,
            valid@.len() == valid_customs(cs.take(i as int)).len(),
            forall|q: int| 0 <= q < valid@.len() ==> *(#[trigger] valid@[q]) == valid_customs(cs.take(i as int))[q],
    {
        proof {
            assert(cs.take(i + 1).drop_last() =~= cs.take(i as int));
            assert(cs.take(i + 1).last() == cs[i as int]);
        }
        let d = &custom_actions[i];
        if !text::is_blank(d.label.as_str()) && !text::is_blank(d.action_id.as_str()) {
            valid.push(d);
        }
    }
    proof {
        assert(cs.take(cs.len() as int) =~= cs);
    }
    let ghost v = valid_customs(cs);
    let truncated_custom_count = valid.len().saturating_sub(MAX_CONTEXT_MENU_CUSTOM_ACTIONS);
    let shown = if valid.len() < MAX_CONTEXT_MENU_CUSTOM_ACTIONS {
        valid.len()
    } else {
        MAX_CONTEXT_MENU_CUSTOM_ACTIONS
    };
    for i in 0..shown
        invariant
            shown <= valid@.len(),
            valid@.len() == v.len(),
            forall|q: int| 0 <= q < valid@.len() ==> *(#[trigger] valid@[q]) == v[q],
            actions@.len() == 2 + i,
            action_is(actions@[0], "Copy"@, CONTEXT_MENU_COPY_ACTION_ID@, trim(payload.copy_text@).len() > 0),
            action_is(
                actions@[1],
                "Copy Summary"@,
                CONTEXT_MENU_COPY_SUMMARY_ACTION_ID@,
                trim(payload.summary_text@).len() > 0,
            ),
            forall|q: int|
                0 <= q < i ==> action_is(#[trigger] actions@[2 + q], v[q].label@, v[q].action_id@, v[q].enabled),
    {
        let d = valid[i];
        actions.push(
            ContextMenuActionSpec {
                label: d.label.clone(),
                action_id: d.action_id.clone(),
                enabled: d.enabled,
            },
        );
        proof {
            assert(action_is(actions@[2 + i as int], v[i as int].label@, v[i as int].action_id@, v[i as int].enabled));
        }
    }
    ContextMenuBuildResult { actions, truncated_custom_count }
}

/// An open menu closes when the selected row changes or a compare, diff or
/// analysis run starts.
pub open spec fn closes_on(previous: ContextMenuSyncState, next: ContextMenuSyncState) -> bool {
    previous.selected_row != next.selected_row || (!previous.running && next.running) || (
    !previous.diff_loading && next.diff_loading) || (!previous.analysis_loading
        && next.analysis_loading)
}

/// Whether a change of window state closes an open menu.
pub fn should_close_for_sync_transition(
    previous: ContextMenuSyncState,
    next: ContextMenuSyncState,
) -> (r: bool)
    ensures
        r == closes_on(previous, next),
{
    let same_row = match (previous.selected_row, next.selected_row) {
        (Some(a), Some(b)) => a == b,
        (None, None) => true,
        _ => false,
    };
    !same_row || (!previous.running && next.running) || (!previous.diff_loading
        && next.diff_loading) || (!previous.analysis_loading && next.analysis_loading)
}

/// An unchanged state never closes a menu.
pub proof fn lemma_no_close_without_change(state: ContextMenuSyncState)
    ensures
        !closes_on(state, state),
{
}

// ---------------------------------------------------------------------------
// Activation
// ---------------------------------------------------------------------------

/// What picking a menu action leads to.
#[derive(Debug, Clone, PartialEq, Eq)]
pub enum ContextMenuActivation {
    /// Nothing: the menu stays open and nothing runs.
    Ignore,
    /// The menu closes and nothing else happens.
    CloseOnly,
    /// The menu closes and the text is copied, reported under the label.
    Copy { text: String, feedback_label: String },
    /// The menu closes and the custom action at `index` runs with the invocation.
    RunCustom { index: usize, invocation: ContextMenuInvocation },
}

/// Index of the first enabled custom action among the first `n` with this id.
pub open spec fn first_enabled_upto(
    cs: Seq<ContextMenuCustomActionDescriptor>,
    id: Seq<char>,
    n: int,
) -> Option<int>
    decreases n,
{
    if n <= 0 {
        None
    } else {
        match first_enabled_upto(cs, id, n - 1) {
            Some(i) => Some(i),
            None => if cs[n - 1].action_id@ == id && cs[n - 1].enabled {
                Some(n - 1)
            } else {
                None
            },
        }
    }
}

pub open spec fn first_enabled(cs: Seq<ContextMenuCustomActionDescriptor>, id: Seq<char>) -> Option<
    int,
> {
    first_enabled_upto(cs, id, cs.len() as int)
}

/// The outcome of picking `action_id` (trimmed) on an open menu: a blank or
/// unknown id (neither copy action nor an enabled custom one) is ignored;
/// otherwise the menu closes, and an offered copy action copies its text, or
/// else the first enabled custom action with that id runs.
pub open spec fn activation_ok(
    r: ContextMenuActivation,
    action_id: Seq<char>,
    target_token: Seq<char>,
    payload: ContextMenuTextPayload,
    cs: Seq<ContextMenuCustomActionDescriptor>,
) -> bool {
    let id = trim(action_id);
    let is_copy = id == CONTEXT_MENU_COPY_ACTION_ID@;
    let is_summary = id == CONTEXT_MENU_COPY_SUMMARY_ACTION_ID@;
    if id.len() == 0 || (!is_copy && !is_summary && first_enabled(cs, id) is None) {
        r == ContextMenuActivation::Ignore
    } else if is_copy && trim(payload.copy_text@).len() > 0 {
        r matches ContextMenuActivation::Copy { text, feedback_label } && text@ == payload.copy_text@
            && feedback_label@ == payload.copy_feedback_label@
    } else if is_summary && trim(payload.summary_text@).len() > 0 {
        r matches ContextMenuActivation::Copy { text, feedback_label } && text@
            == payload.summary_text@ && feedback_label@ == payload.summary_feedback_label@
    } else {
        match first_enabled(cs, id) {
            Some(i) => r matches ContextMenuActivation::RunCustom { index, invocation } && index
                == i && invocation.target_token@ == target_token && invocation.action_id@ == id,
            None => r == ContextMenuActivation::CloseOnly,
        }
    }
}

fn find_enabled_custom(cs: &[ContextMenuCustomActionDescriptor], id: &[char]) -> (r: Option<usize>)
    ensures
        r is Some <==> first_enabled(cs@, id@) is Some,
        r matches Some(k) ==> first_enabled(cs@, id@) == Some(k as int),
{
    for i in 0..cs.len()
        invariant
            first_enabled_upto(cs@, id@, i as int) is None,
    {
        let aid = text::chars_of(cs[i].action_id.as_str());
        if cs[i].enabled && text::chars_eq(&aid, id) {
            proof {
                lemma_first_enabled_found(cs@, id@, i as int);
            }
            return Some(i);
        }
        assert(first_enabled_upto(cs@, id@, i + 1) is None);
    }
    None
}

proof fn lemma_first_enabled_found(cs: Seq<ContextMenuCustomActionDescriptor>, id: Seq<char>, i: int)
    requires
        0 <= i < cs.len(),
        first_enabled_upto(cs, id, i) is None,
        cs[i].action_id@ == id && cs[i].enabled,
    ensures
        first_enabled(cs, id) == Some(i),
    decreases cs.len() - i,
{
    lemma_first_enabled_stable(cs, id, i + 1, cs.len() as int);
}

proof fn lemma_first_enabled_stable(cs: Seq<ContextMenuCustomActionDescriptor>, id: Seq<char>, m: int, n: int)
    requires
        0 <= m <= n <= cs.len(),
        first_enabled_upto(cs, id, m) is Some,
    ensures
        first_enabled_upto(cs, id, n) == first_enabled_upto(cs, id, m),
    decreases n - m,
{
    if m < n {
        lemma_first_enabled_stable(cs, id, m, n - 1);
    }
}

/// Decides what picking a menu action does, from the menu's target, payload
/// and custom actions.
pub fn resolve_context_menu_activation(
    action_id: &str,
    target_token: &str,
    payload: &ContextMenuTextPayload,
    custom_actions: &[ContextMenuCustomActionDescriptor],
) -> (r: ContextMenuActivation)
    ensures
        activation_ok(r, action_id@, target_token@, *payload, custom_actions@),
{
    let id = text::trim_chars(&text::chars_of(action_id), TrimClass::Whitespace);
    if id.len() == 0 {
        return ContextMenuActivation::Ignore;
    }
    let is_copy = text::chars_eq_str(&id, CONTEXT_MENU_COPY_ACTION_ID);
    let is_summary = text::chars_eq_str(&id, CONTEXT_MENU_COPY_SUMMARY_ACTION_ID);
    let custom = find_enabled_custom(custom_actions, &id);
    if !is_copy && !is_summary && custom.is_none() {
        return ContextMenuActivation::Ignore;
    }
    if is_copy && payload.copy_enabled() {
        return ContextMenuActivation::Copy {
            text: payload.copy_text.clone(),
            feedback_label: payload.copy_feedback_label.clone(),
        };
    }
    if is_summary && payload.summary_enabled() {
        return ContextMenuActivation::Copy {
            text: payload.summary_text.clone(),
            feedback_label: payload.summary_feedback_label.clone(),
        };
    }
    match custom {
        Some(index) => ContextMenuActivation::RunCustom {
            index,
            invocation: ContextMenuInvocation {
                target_token: text::to_string(target_token),
                action_id: text::string_from_chars(&id),
            },
        },
        None => ContextMenuActivation::CloseOnly,
    }
}

// ---------------------------------------------------------------------------
// Payloads
// ---------------------------------------------------------------------------

pub open spec fn payload_is(
    p: ContextMenuTextPayload,
    copy: Seq<char>,
    summary: Seq<char>,
    copy_label: Seq<char>,
    summary_label: Seq<char>,
) -> bool {
    p.copy_text@ == copy && p.summary_text@ == summary && p.copy_feedback_label@ == copy_label
        && p.summary_feedback_label@ == summary_label
}

/// The copy payload of a results row.
pub open spec fn results_row_payload(
    relative_path: Seq<char>,
    status_token: Seq<char>,
    detail: Seq<char>,
    unavailable: bool,
    r: ContextMenuTextPayload,
) -> bool {
    let path = or_else(norm_text(relative_path), "Unknown file"@);
    let status = status_label(status_token);
    let detail_text = if unavailable {
        "Detailed diff unavailable"@
    } else {
        or_else(norm_text(detail), "No detail"@)
    };
    let summary = summary_line(seq![Some(status), Some(path), Some(excerpt(detail_text, 120))]);
    payload_is(
        r,
        blocks_text(
            seq![("File"@, Some(path)), ("Status"@, Some(status)), ("Detail"@, Some(detail_text))],
        ),
        blocks_text(seq![("Result Summary"@, Some(summary))]),
        "Result"@,
        "Result Summary"@,
    )
}

/// Copy text of a results row: its file, status label and detail; its summary
/// line joins them, with the detail cut to its first sentence.
pub fn build_results_row_payload(
    relative_path: &str,
    status_token: &str,
    detail: &str,
    unavailable: bool,
) -> (r: ContextMenuTextPayload)
    ensures
        results_row_payload(relative_path@, status_token@, detail@, unavailable, r),
{
    let path = text_or(normalize_text(relative_path), "Unknown file");
    let status = display_status_label(status_token);
    let detail_text = if unavailable {
        text::to_string("Detailed diff unavailable")
    } else {
        text_or(normalize_text(detail), "No detail")
    };
    let parts = vec![
        Some(status.clone()),
        Some(path.clone()),
        Some(sentence_excerpt(detail_text.as_str(), 120)),
    ];
    let summary = join_summary_parts(parts.as_slice());
    proof {
        assert(opt_views(parts@) =~= seq![Some(status@), Some(path@), Some(excerpt(detail_text@, 120))]);
    }
    let copy_blocks = vec![("File", Some(path)), ("Status", Some(status)), ("Detail", Some(detail_text))];
    let ghost cb = block_views(copy_blocks@);
    let copy_text = join_blocks(copy_blocks.as_slice());
    let summary_blocks = vec![("Result Summary", Some(summary))];
    let ghost sb = block_views(summary_blocks@);
    let summary_text = join_blocks(summary_blocks.as_slice());
    let r = ContextMenuTextPayload {
        copy_text,
        summary_text,
        copy_feedback_label: text::to_string("Result"),
        summary_feedback_label: text::to_string("Result Summary"),
    };
    proof {
        let p = or_else(norm_text(relative_path@), "Unknown file"@);
        let st = status_label(status_token@);
        let d = if unavailable {
            "Detailed diff unavailable"@
        } else {
            or_else(norm_text(detail@), "No detail"@)
        };
        assert(cb =~= seq![("File"@, Some(p)), ("Status"@, Some(st)), ("Detail"@, Some(d))]);
        assert(sb =~= seq![("Result Summary"@, Some(summary_line(seq![Some(st), Some(p), Some(excerpt(d, 120))])))]);
    }
    r
}

/// The copy payload of the workspace file header.
pub open spec fn workspace_header_payload(
    relative_path: Seq<char>,
    mode_label: Seq<char>,
    status_label_text: Seq<char>,
    summary_text: Seq<char>,
    hint_text: Seq<char>,
    r: ContextMenuTextPayload,
) -> bool {
    let path = or_else(norm_text(relative_path), "No file selected"@);
    let mode = or_else(norm_text(mode_label), "Unknown view"@);
    let status = or_else(norm_text(status_label_text), "Unavailable"@);
    let summary = or_else(norm_text(summary_text), "No summary available."@);
    let hint = norm_text(hint_text);
    let line = summary_line(seq![Some(path), Some(mode), Some(status), Some(excerpt(summary, 120))]);
    payload_is(
        r,
        blocks_text(
            seq![
                ("File"@, Some(path)),
                ("View"@, Some(mode)),
                ("Status"@, Some(status)),
                ("Summary"@, Some(summary)),
                ("Hint"@, hint),
            ],
        ),
        blocks_text(seq![("File Context Summary"@, Some(line)), ("Hint"@, hint)]),
        "File Context"@,
        "File Context Summary"@,
    )
}

/// Copy text of the workspace header: file, view, status, summary and hint.
pub fn build_workspace_header_payload(
    relative_path: &str,
    mode_label: &str,
    status_label: &str,
    summary_text: &str,
    hint_text: &str,
) -> (r: ContextMenuTextPayload)
    ensures
        workspace_header_payload(relative_path@, mode_label@, status_label@, summary_text@, hint_text@, r),
{
    let path = text_or(normalize_text(relative_path), "No file selected");
    let mode = text_or(normalize_text(mode_label), "Unknown view");
    let status = text_or(normalize_text(status_label), "Unavailable");
    let summary = text_or(normalize_text(summary_text), "No summary available.");
    let hint = normalize_text(hint_text);
    let parts = vec![
        Some(path.clone()),
        Some(mode.clone()),
        Some(status.clone()),
        Some(sentence_excerpt(summary.as_str(), 120)),
    ];
    let summary_line_text = join_summary_parts(parts.as_slice());
    proof {
        assert(opt_views(parts@) =~= seq![
            Some(path@),
            Some(mode@),
            Some(status@),
            Some(excerpt(summary@, 120)),
        ]);
    }
    let hint_copy = match &hint {
        Some(h) => Some(h.clone()),
        None => None,
    };
    let copy_blocks = vec![
        ("File", Some(path)),
        ("View", Some(mode)),
        ("Status", Some(status)),
        ("Summary", Some(summary)),
        ("Hint", hint_copy),
    ];
    let ghost cb = block_views(copy_blocks@);
    let copy_text = join_blocks(copy_blocks.as_slice());
    let summary_blocks = vec![("File Context Summary", Some(summary_line_text)), ("Hint", hint)];
    let ghost sb = block_views(summary_blocks@);
    let summary_out = join_blocks(summary_blocks.as_slice());
    proof {
        let p = or_else(norm_text(relative_path@), "No file selected"@);
        let m = or_else(norm_text(mode_label@), "Unknown view"@);
        let st = or_else(norm_text(status_label@), "Unavailable"@);
        let su = or_else(norm_text(summary_text@), "No summary available."@);
        let h = norm_text(hint_text@);
        assert(cb =~= seq![
            ("File"@, Some(p)),
            ("View"@, Some(m)),
            ("Status"@, Some(st)),
            ("Summary"@, Some(su)),
            ("Hint"@, h),
        ]);
        assert(sb =~= seq![
            ("File Context Summary"@, Some(summary_line(seq![Some(p), Some(m), Some(st), Some(excerpt(su, 120))]))),
            ("Hint"@, h),
        ]);
    }
    ContextMenuTextPayload {
        copy_text,
        summary_text: summary_out,
        copy_feedback_label: text::to_string("File Context"),
        summary_feedback_label: text::to_string("File Context Summary"),
    }
}

pub open spec fn or_opt(a: Option<Seq<char>>, b: Option<Seq<char>>) -> Option<Seq<char>> {
    match a {
        Some(v) => Some(v),
        None => b,
    }
}

/// The copy payload of an analysis section.
pub open spec fn analysis_section_payload(
    section_label: Seq<char>,
    title: Seq<char>,
    body: Seq<char>,
    copy_value: Seq<char>,
    r: ContextMenuTextPayload,
) -> bool {
    let section = or_else(norm_text(section_label), "Analysis"@);
    let t = norm_text(title);
    let b = norm_text(body);
    let fallback_copy = blocks_text(seq![(section, or_opt(t, b))]);
    let copy = or_else(norm_text(copy_value), fallback_copy);
    let source = or_opt(
        t,
        match b {
            Some(v) => Some(excerpt(v, 140)),
            None => None,
        },
    );
    let label = section + " Summary"@;
    payload_is(r, copy, blocks_text(seq![(label, source)]), section, label)
}

fn clone_opt(o: &Option<String>) -> (r: Option<String>)
    ensures
        opt_view(r) == opt_view(*o),
{
    match o {
        Some(v) => Some(v.clone()),
        None => None,
    }
}

/// Copy text of an analysis section: the given copy value, else the section's
/// title (or body); its summary is the title, else the body's first sentence.
pub fn build_analysis_section_payload(
    section_label: &str,
    title: &str,
    body: &str,
    copy_value: &str,
) -> (r: ContextMenuTextPayload)
    ensures
        analysis_section_payload(section_label@, title@, body@, copy_value@, r),
{
    let section = text_or(normalize_text(section_label), "Analysis");
    let title = normalize_text(title);
    let body = normalize_text(body);
    let first = match &title {
        Some(t) => Some(t.clone()),
        None => clone_opt(&body),
    };
    let fallback_blocks = vec![(section.as_str(), first)];
    let ghost fb = block_views(fallback_blocks@);
    let fallback_copy = join_blocks(fallback_blocks.as_slice());
    let copy_text = text_or(normalize_text(copy_value), fallback_copy.as_str());
    let summary_source = match &title {
        Some(t) => Some(t.clone()),
        None => match &body {
            Some(b) => Some(sentence_excerpt(b.as_str(), 140)),
            None => None,
        },
    };
    let mut label_chars = chars_of(section.as_str());
    push_str(&mut label_chars, " Summary");
    let summary_label = string_from_chars(&label_chars);
    let summary_blocks = vec![(summary_label.as_str(), summary_source)];
    let ghost sb = block_views(summary_blocks@);
    let summary_text = join_blocks(summary_blocks.as_slice());
    proof {
        assert(fb =~= seq![(section@, or_opt(opt_view(title), opt_view(body)))]);
        assert(sb =~= seq![(section@ + " Summary"@, or_opt(opt_view(title), match opt_view(body) {
            Some(v) => Some(excerpt(v, 140)),
            None => None,
        }))]);
    }
    ContextMenuTextPayload {
        copy_text,
        summary_text,
        copy_feedback_label: section,
        summary_feedback_label: summary_label,
    }
}

// ---------------------------------------------------------------------------
// Menu targets and the extra actions of result rows
// ---------------------------------------------------------------------------

/// `s` with each space turned into `-`.
pub open spec fn dash_spaces(s: Seq<char>) -> Seq<char> {
    s.map_values(|c: char| if c == ' ' {
        '-'
    } else {
        c
    })
}

/// The menu target of a flat result row: `results:` and its trimmed path.
pub fn results_target_token(path: &str) -> (r: String)
    ensures
        r@ == "results:"@ + trim(path@),
{
    let mut out = chars_of("results:");
    let t = text::trim_chars(&chars_of(path), TrimClass::Whitespace);
    push_all(&mut out, &t);
    string_from_chars(&out)
}

/// The menu target of a tree result row: `tree-results:` and its trimmed key.
pub fn tree_results_target_token(key: &str) -> (r: String)
    ensures
        r@ == "tree-results:"@ + trim(key@),
{
    let mut out = chars_of("tree-results:");
    let t = text::trim_chars(&chars_of(key), TrimClass::Whitespace);
    push_all(&mut out, &t);
    string_from_chars(&out)
}

/// The menu target of the compare status: `compare-status:` and the status
/// text, trimmed and in ASCII lower case.
pub fn compare_status_target_token(status_text: &str) -> (r: String)
    ensures
        r@ == "compare-status:"@ + text::lower_seq(trim(status_text@)),
{
    let mut out = chars_of("compare-status:");
    let t = text::trim_chars(&chars_of(status_text), TrimClass::Whitespace);
    let l = text::lower_chars(&t);
    push_all(&mut out, &l);
    string_from_chars(&out)
}

/// The menu target of the workspace header: `workspace-header:`, the mode
/// label trimmed and in ASCII lower case, `:`, and the selected path as it is.
pub fn workspace_header_target_token(mode_label: &str, selected_relative_path: &str) -> (r: String)
    ensures
        r@ == "workspace-header:"@ + text::lower_seq(trim(mode_label@)) + ":"@
            + selected_relative_path@,
{
    let mut out = chars_of("workspace-header:");
    let t = text::trim_chars(&chars_of(mode_label), TrimClass::Whitespace);
    let l = text::lower_chars(&t);
    push_all(&mut out, &l);
    push_str(&mut out, ":");
    push_str(&mut out, selected_relative_path);
    string_from_chars(&out)
}

/// The menu target of an analysis section: `analysis-section:`, the section
/// label trimmed, in ASCII lower case and with spaces turned into `-`, `:`,
/// and the selected path as it is.
pub fn analysis_section_target_token(section_label: &str, selected_relative_path: &str) -> (r:
    String)
    ensures
        r@ == "analysis-section:"@ + dash_spaces(text::lower_seq(trim(section_label@))) + ":"@
            + selected_relative_path@,
{
    let mut out = chars_of("analysis-section:");
    let t = text::trim_chars(&chars_of(section_label), TrimClass::Whitespace);
    let l = text::lower_chars(&t);
    let mut d: Vec<char> = Vec::new();
    for i in 0..l.len()
        invariant
            d@ == dash_spaces(l@.take(i as int)),
    {
        let c = if l[i] == ' ' {
            '-'
        } else {
            l[i]
        };
        d.push(c);
        assert(dash_spaces(l@.take(i + 1)) =~= dash_spaces(l@.take(i as int)).push(c));
    }
    assert(l@.take(l@.len() as int) =~= l@);
    push_all(&mut out, &d);
    push_str(&mut out, ":");
    push_str(&mut out, selected_relative_path);
    string_from_chars(&out)
}

/// The extra actions of a flat result row by its entry kind: `Locate and
/// Open` for a file, `Open in Compare View` for a directory, none otherwise
/// (nor for a row that is not found).
pub fn results_row_custom_actions(entry_kind: Option<&str>) -> (r: Vec<
    ContextMenuCustomActionDescriptor,
>)
    ensures
        match entry_kind {
            Some(k) => if k@ == "file"@ {
                r@.len() == 1 && r@[0].label@ == "Locate and Open"@ && r@[0].action_id@
                    == RESULTS_LOCATE_AND_OPEN_ACTION_ID@ && r@[0].enabled
            } else if k@ == "directory"@ {
                r@.len() == 1 && r@[0].label@ == "Open in Compare View"@ && r@[0].action_id@
                    == RESULTS_OPEN_IN_COMPARE_VIEW_ACTION_ID@ && r@[0].enabled
            } else {
                r@.len() == 0
            },
            None => r@.len() == 0,
        },
{
    let mut r: Vec<ContextMenuCustomActionDescriptor> = Vec::new();
    match entry_kind {
        Some(k) => {
            if text::str_eq(k, "file") {
                r.push(
                    ContextMenuCustomActionDescriptor {
                        label: text::to_string("Locate and Open"),
                        action_id: text::to_string(RESULTS_LOCATE_AND_OPEN_ACTION_ID),
                        enabled: true,
                    },
                );
            } else if text::str_eq(k, "directory") {
                r.push(
                    ContextMenuCustomActionDescriptor {
                        label: text::to_string("Open in Compare View"),
                        action_id: text::to_string(RESULTS_OPEN_IN_COMPARE_VIEW_ACTION_ID),
                        enabled: true,
                    },
                );
            }
        },
        None => {},
    }
    r
}

/// The extra actions of a tree result row: `Open in Compare View` for a
/// directory with a non-blank key, none otherwise.
pub fn tree_row_custom_actions(directory: bool, key: &str) -> (r: Vec<
    ContextMenuCustomActionDescriptor,
>)
    ensures
        directory && trim(key@).len() > 0 ==> r@.len() == 1 && r@[0].label@
            == "Open in Compare View"@ && r@[0].action_id@ == RESULTS_OPEN_IN_COMPARE_VIEW_ACTION_ID@
            && r@[0].enabled,
        !(directory && trim(key@).len() > 0) ==> r@.len() == 0,
{
    let mut r: Vec<ContextMenuCustomActionDescriptor> = Vec::new();
    if directory && !text::is_blank(key) {
        r.push(
            ContextMenuCustomActionDescriptor {
                label: text::to_string("Open in Compare View"),
                action_id: text::to_string(RESULTS_OPEN_IN_COMPARE_VIEW_ACTION_ID),
                enabled: true,
            },
        );
    }
    r
}

} // verus!
