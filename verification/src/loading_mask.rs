//! The loading mask: which panes are covered while work runs, and the copy it shows.

use vstd::prelude::*;
use crate::text;

verus! {

/// What the window is busy with, by priority.
#[derive(Debug, Clone, Copy, PartialEq, Eq, Structural)]
pub enum LoadingMaskPhase {
    Idle,
    Comparing,
    DiffLoading,
    AnalysisLoading,
}

/// Which panes the mask covers and what it says.
#[derive(Debug, Clone, Copy, PartialEq, Eq)]
pub struct LoadingMaskProjection {
    pub sidebar_visible: bool,
    pub workspace_visible: bool,
    pub message: &'static str,
}

/// The values of a projection.
pub open spec fn proj_view(p: LoadingMaskProjection) -> (bool, bool, Seq<char>) {
    (p.sidebar_visible, p.workspace_visible, p.message@)
}

impl Default for LoadingMaskProjection {
    fn default() -> (r: Self)
        ensures
            proj_view(r) == (false, false, ""@),
    {
        LoadingMaskProjection { sidebar_visible: false, workspace_visible: false, message: "" }
    }
}

/// The phase of the busy flags: compare first, then diff, then analysis.
pub open spec fn phase_of(running: bool, diff_loading: bool, analysis_loading: bool) -> LoadingMaskPhase {
    if running {
        LoadingMaskPhase::Comparing
    } else if diff_loading {
        LoadingMaskPhase::DiffLoading
    } else if analysis_loading {
        LoadingMaskPhase::AnalysisLoading
    } else {
        LoadingMaskPhase::Idle
    }
}

/// The mask of a phase: comparing covers both panes, diff and analysis the
/// workspace only; after the timeout the copy says the work takes long.
pub open spec fn projection_of(phase: LoadingMaskPhase, timeout_reached: bool) -> (bool, bool, Seq<char>) {
    let (sidebar, workspace) = match phase {
        LoadingMaskPhase::Idle => (false, false),
        LoadingMaskPhase::Comparing => (true, true),
        _ => (false, true),
    };
    let message = if timeout_reached {
        "Taking longer than expected..."@
    } else {
        match phase {
            LoadingMaskPhase::Idle => ""@,
            LoadingMaskPhase::Comparing => "Comparing folders..."@,
            LoadingMaskPhase::DiffLoading => "Loading diff..."@,
            LoadingMaskPhase::AnalysisLoading => "Running AI analysis..."@,
        }
    };
    (sidebar, workspace, message)
}

/// The phase of the busy flags.
pub fn derive_loading_mask_phase(running: bool, diff_loading: bool, analysis_loading: bool) -> (r:
    LoadingMaskPhase)
    ensures
        r == phase_of(running, diff_loading, analysis_loading),
{
    if running {
        LoadingMaskPhase::Comparing
    } else if diff_loading {
        LoadingMaskPhase::DiffLoading
    } else if analysis_loading {
        LoadingMaskPhase::AnalysisLoading
    } else {
        LoadingMaskPhase::Idle
    }
}

/// The mask for the busy flags.
pub fn derive_loading_mask_projection(
    running: bool,
    diff_loading: bool,
    analysis_loading: bool,
    timeout_reached: bool,
) -> (r: LoadingMaskProjection)
    ensures
        proj_view(r) == projection_of(
            phase_of(running, diff_loading, analysis_loading),
            timeout_reached,
        ),
{
    let phase = derive_loading_mask_phase(running, diff_loading, analysis_loading);
    let (sidebar_visible, workspace_visible) = match phase {
        LoadingMaskPhase::Idle => (false, false),
        LoadingMaskPhase::Comparing => (true, true),
        LoadingMaskPhase::DiffLoading | LoadingMaskPhase::AnalysisLoading => (false, true),
    };
    let message = if timeout_reached {
        "Taking longer than expected..."
    } else {
        match phase {
            LoadingMaskPhase::Idle => "",
            LoadingMaskPhase::Comparing => "Comparing folders...",
            LoadingMaskPhase::DiffLoading => "Loading diff...",
            LoadingMaskPhase::AnalysisLoading => "Running AI analysis...",
        }
    };
    LoadingMaskProjection { sidebar_visible, workspace_visible, message }
}

/// Whether two projections show the same mask.
pub fn same_projection(a: &LoadingMaskProjection, b: &LoadingMaskProjection) -> (r: bool)
    ensures
        r == (proj_view(*a) == proj_view(*b)),
{
    a.sidebar_visible == b.sidebar_visible && a.workspace_visible == b.workspace_visible
        && text::str_eq(a.message, b.message)
}

/// The mask's phase, the generation of that phase (for timeouts), whether its
/// timeout has fired, and the mask last shown.
#[derive(Debug, Clone)]
pub struct LoadingMaskState {
    pub phase: LoadingMaskPhase,
    pub generation: u64,
    pub timeout_reached: bool,
    pub last_projection: LoadingMaskProjection,
}

impl Default for LoadingMaskState {
    fn default() -> (r: Self)
        ensures
            r.phase == LoadingMaskPhase::Idle,
            r.generation == 0,
            !r.timeout_reached,
            proj_view(r.last_projection) == (false, false, ""@),
    {
        LoadingMaskState {
            phase: LoadingMaskPhase::Idle,
            generation: 0,
            timeout_reached: false,
            last_projection: LoadingMaskProjection::default(),
        }
    }
}

/// The state after the busy flags were observed.
pub open spec fn advanced(s: LoadingMaskState, running: bool, diff_loading: bool, analysis_loading: bool) -> (
    LoadingMaskPhase,
    u64,
    bool,
) {
    let phase = phase_of(running, diff_loading, analysis_loading);
    if s.phase != phase {
        (phase, (if s.generation == u64::MAX {
            0
        } else {
            s.generation + 1
        }) as u64, false)
    } else {
        (s.phase, s.generation, s.timeout_reached)
    }
}

/// The mask that a timeout of the current phase shows.
pub open spec fn timeout_projection(phase: LoadingMaskPhase) -> (bool, bool, Seq<char>) {
    match phase {
        LoadingMaskPhase::Idle => (false, false, ""@),
        _ => projection_of(phase, true),
    }
}

/// One observation of the loading mask: the busy flags, or a fired timeout
/// of a generation.
pub enum MaskEvent {
    Flags(bool, bool, bool),
    Timeout(u64),
}

/// The phase, generation and timeout state of a mask.
pub open spec fn mask_core(s: LoadingMaskState) -> (LoadingMaskPhase, u64, bool) {
    (s.phase, s.generation, s.timeout_reached)
}

/// What one observation does to the phase, generation and timeout state: a
/// new phase starts the next generation (wrapping) with its timeout clear; a
/// timeout of the current busy generation that has not fired yet marks it
/// fired; anything else changes nothing.
pub open spec fn step_core(c: (LoadingMaskPhase, u64, bool), ev: MaskEvent) -> (
    LoadingMaskPhase,
    u64,
    bool,
) {
    match ev {
        MaskEvent::Flags(running, diff_loading, analysis_loading) => {
            let phase = phase_of(running, diff_loading, analysis_loading);
            if c.0 != phase {
                (phase, (if c.1 == u64::MAX {
                    0
                } else {
                    c.1 + 1
                }) as u64, false)
            } else {
                c
            }
        },
        MaskEvent::Timeout(g) => if c.0 == LoadingMaskPhase::Idle || c.1 != g || c.2 {
            c
        } else {
            (c.0, c.1, true)
        },
    }
}

/// The state after a sequence of observations.
pub open spec fn run_core(c: (LoadingMaskPhase, u64, bool), evs: Seq<MaskEvent>) -> (
    LoadingMaskPhase,
    u64,
    bool,
)
    decreases evs.len(),
{
    if evs.len() == 0 {
        c
    } else {
        step_core(run_core(c, evs.drop_last()), evs.last())
    }
}

/// How many observations of a sequence change the phase.
pub open spec fn phase_changes(c: (LoadingMaskPhase, u64, bool), evs: Seq<MaskEvent>) -> nat
    decreases evs.len(),
{
    if evs.len() == 0 {
        0
    } else {
        phase_changes(c, evs.drop_last()) + match evs.last() {
            MaskEvent::Flags(r, d, a) => if run_core(c, evs.drop_last()).0 != phase_of(r, d, a) {
                1nat
            } else {
                0nat
            },
            MaskEvent::Timeout(_) => 0nat,
        }
    }
}

impl LoadingMaskState {
    /// Observes the busy flags. A new phase starts a new generation and clears
    /// the timeout; the mask is returned when it differs from the last one
    /// shown, and a new busy phase asks for a timeout of its generation.
    pub fn advance(&mut self, running: bool, diff_loading: bool, analysis_loading: bool) -> (r: (
        Option<LoadingMaskProjection>,
        Option<u64>,
    ))
        ensures
            ({
                let (phase, generation, timeout_reached) = advanced(
                    *old(self),
                    running,
                    diff_loading,
                    analysis_loading,
                );
                let proj = projection_of(phase, timeout_reached);
                &&& final(self).phase == phase
                &&& final(self).generation == generation
                &&& final(self).timeout_reached == timeout_reached
                &&& proj_view(final(self).last_projection) == proj
                &&& (r.0 is Some <==> proj != proj_view(old(self).last_projection))
                &&& (r.0 matches Some(p) ==> proj_view(p) == proj)
                &&& r.1 == if old(self).phase != phase && phase != LoadingMaskPhase::Idle {
                    Some(generation)
                } else {
                    None
                }
            }),
            mask_core(*final(self)) == step_core(
                mask_core(*old(self)),
                MaskEvent::Flags(running, diff_loading, analysis_loading),
            ),
    {
        let phase = derive_loading_mask_phase(running, diff_loading, analysis_loading);
        let phase_changed = self.phase != phase;
        if phase_changed {
            self.phase = phase;
            self.generation = self.generation.wrapping_add(1);
            self.timeout_reached = false;
        }
        let projection = derive_loading_mask_projection(
            running,
            diff_loading,
            analysis_loading,
            self.timeout_reached,
        );
        let timeout_generation = if phase_changed && phase != LoadingMaskPhase::Idle {
            Some(self.generation)
        } else {
            None
        };
        if same_projection(&projection, &self.last_projection) {
            return (None, timeout_generation);
        }
        self.last_projection = projection;
        (Some(projection), timeout_generation)
    }

    /// The timeout of `generation` fired: when that is still the current busy
    /// phase and its timeout has not fired yet, marks it and returns the
    /// degraded mask if it differs from the last one shown.
    pub fn trigger_timeout(&mut self, generation: u64) -> (r: Option<LoadingMaskProjection>)
        ensures
            old(self).phase == LoadingMaskPhase::Idle || old(self).generation != generation
                || old(self).timeout_reached ==> r is None && *final(self) == *old(self),
            !(old(self).phase == LoadingMaskPhase::Idle || old(self).generation != generation
                || old(self).timeout_reached) ==> {
                &&& final(self).phase == old(self).phase
                &&& final(self).generation == old(self).generation
                &&& final(self).timeout_reached
                &&& proj_view(final(self).last_projection) == timeout_projection(old(self).phase)
                &&& (r is Some <==> timeout_projection(old(self).phase) != proj_view(
                    old(self).last_projection,
                ))
                &&& (r matches Some(p) ==> proj_view(p) == timeout_projection(old(self).phase))
            },
            mask_core(*final(self)) == step_core(mask_core(*old(self)), MaskEvent::Timeout(generation)),
    {
        if self.phase == LoadingMaskPhase::Idle || self.generation != generation
            || self.timeout_reached {
            return None;
        }
        self.timeout_reached = true;
        let projection = match self.phase {
            LoadingMaskPhase::Comparing => derive_loading_mask_projection(true, false, false, true),
            LoadingMaskPhase::DiffLoading => derive_loading_mask_projection(false, true, false, true),
            LoadingMaskPhase::AnalysisLoading => derive_loading_mask_projection(
                false,
                false,
                true,
                true,
            ),
            LoadingMaskPhase::Idle => LoadingMaskProjection::default(),
        };
        if same_projection(&projection, &self.last_projection) {
            return None;
        }
        self.last_projection = projection;
        Some(projection)
    }
}

/// When observing the flags starts a busy phase, the timeout requested for
/// it fires: the timeout is clear, and the mask it shows is the long-running
/// copy, which differs from the mask shown at the start.
pub proof fn lemma_timeout_follows_busy_start(
    s: LoadingMaskState,
    running: bool,
    diff_loading: bool,
    analysis_loading: bool,
)
    requires
        s.phase != phase_of(running, diff_loading, analysis_loading),
        phase_of(running, diff_loading, analysis_loading) != LoadingMaskPhase::Idle,
    ensures
        ({
            let (phase, generation, timeout_reached) = advanced(
                s,
                running,
                diff_loading,
                analysis_loading,
            );
            &&& !timeout_reached
            &&& timeout_projection(phase).2 == "Taking longer than expected..."@
            &&& timeout_projection(phase) != projection_of(phase, timeout_reached)
        }),
{
    reveal_strlit("Taking longer than expected...");
    reveal_strlit("Comparing folders...");
    reveal_strlit("Loading diff...");
    reveal_strlit("Running AI analysis...");
    let long = "Taking longer than expected..."@;
    assert(long.len() != "Comparing folders..."@.len());
    assert(long.len() != "Loading diff..."@.len());
    assert(long.len() != "Running AI analysis..."@.len());
}

/// Observing the same flags again changes nothing: same phase, same
/// generation, same timeout state, and no new timeout.
pub proof fn lemma_advance_settles(
    s: LoadingMaskState,
    running: bool,
    diff_loading: bool,
    analysis_loading: bool,
)
    requires
        s.phase == phase_of(running, diff_loading, analysis_loading),
    ensures
        advanced(s, running, diff_loading, analysis_loading) == (s.phase, s.generation, s.timeout_reached),
{
}

proof fn lemma_run_generation(c: (LoadingMaskPhase, u64, bool), evs: Seq<MaskEvent>)
    requires
        phase_changes(c, evs) <= u64::MAX,
    ensures
        ({
            let k = phase_changes(c, evs);
            let r = run_core(c, evs);
            &&& c.1 + k <= u64::MAX ==> r.1 == c.1 + k
            &&& c.1 + k > u64::MAX ==> r.1 == c.1 + k - u64::MAX - 1
            &&& k == 0 ==> r.0 == c.0 && (c.2 ==> r.2)
            &&& k == 0 && evs.contains(MaskEvent::Timeout(c.1)) && c.0 != LoadingMaskPhase::Idle
                ==> r.2
        }),
    decreases evs.len(),
{
    if evs.len() > 0 {
        let init = evs.drop_last();
        lemma_run_generation(c, init);
        if evs.contains(MaskEvent::Timeout(c.1)) && !init.contains(MaskEvent::Timeout(c.1)) {
            let j = choose|j: int| 0 <= j < evs.len() && evs[j] == MaskEvent::Timeout(c.1);
            if j < init.len() {
                assert(init[j] == evs[j]);
            }
            assert(evs.last() == MaskEvent::Timeout(c.1));
        }
    }
}

/// A timeout is stale once the phase it was requested for has ended, and
/// spent once it has fired: in either case it changes nothing. From the
/// state `c` in which a timeout of generation `c.1` was requested, after any
/// observations that changed the phase (fewer than 2^64 times, past which
/// generations wrap around) or that include that timeout already, the
/// timeout leaves the state as it is.
pub proof fn lemma_stale_timeout_changes_nothing(
    c: (LoadingMaskPhase, u64, bool),
    evs: Seq<MaskEvent>,
)
    requires
        phase_changes(c, evs) <= u64::MAX,
        phase_changes(c, evs) > 0 || evs.contains(MaskEvent::Timeout(c.1)) || c.2,
    ensures
        step_core(run_core(c, evs), MaskEvent::Timeout(c.1)) == run_core(c, evs),
{
    lemma_run_generation(c, evs);
}

} // verus!
