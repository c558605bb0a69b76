//! The dimming engine: which displays are darkened, by which backend, at
//! which opacity, and the registry of overlay surfaces it tracks.
//!
//! Native work stays with the caller. The engine plans a session from an
//! opacity snapshot and the current displays, the caller applies the plan
//! (a compositor colour transform, or one overlay surface per target) and
//! reports what came of it, and the engine records the session. Hiding
//! hands back every tracked surface for destruction.
use vstd::prelude::*;

use crate::monitor::{Monitor, Rect};
use crate::opacity::valid_opacity;
use crate::state::{lemma_wf_opacities_valid, OpacityState, OpacityStateView};

verus! {

/// How a session darkens its displays.
#[derive(Clone, Copy, Debug, PartialEq, Eq, Structural)]
pub enum BackendKind {
    /// A colour transform at the display compositor stage: no surface, no
    /// z-order, invisible to capture.
    CompositorEffect,
    /// One click-through, topmost, black overlay surface per display.
    OverlaySurfaces,
}

/// One display to darken: its position in the display list, its bounds and
/// the opacity to apply.
#[derive(Clone, Copy, Debug, PartialEq, Eq, Structural)]
pub struct Target {
    pub monitor_index: u32,
    pub bounds: Rect,
    pub opacity: u32,
}

/// A live overlay surface: the display it darkens, its native handle and
/// its current opacity.
#[derive(Clone, Copy, Debug, PartialEq, Eq, Structural)]
pub struct DimSurface {
    pub monitor_index: u32,
    pub handle: u64,
    pub opacity: u32,
}

/// The backend that is active; exactly one at a time.
#[derive(Clone, Debug)]
pub enum BackendMode {
    Inactive,
    CompositorEffect(Vec<Target>),
    OverlaySurfaces(Vec<DimSurface>),
}

/// What a [`BackendMode`] holds.
pub enum ModeView {
    Inactive,
    Effect(Seq<Target>),
    Surfaces(Seq<DimSurface>),
}

/// Whether an overlay surface is kept out of screen captures.
#[derive(Clone, Copy, Debug, PartialEq, Eq, Structural)]
pub enum CaptureAffinity {
    /// Omitted from screenshots and recordings, still shown on the display.
    ExcludeFromCapture,
    /// Captured like any other window.
    Visible,
}

/// The capture affinity to give every overlay surface, at creation and on
/// every recreation: excluded from capture unless capture is allowed.
pub fn capture_affinity(allow_capture: bool) -> (a: CaptureAffinity)
    ensures
        a == if allow_capture { CaptureAffinity::Visible } else { CaptureAffinity::ExcludeFromCapture },
{
    if allow_capture {
        CaptureAffinity::Visible
    } else {
        CaptureAffinity::ExcludeFromCapture
    }
}

/// A session planned by [`DimmingEngine::plan_show`].
#[derive(Clone, Debug)]
pub struct ShowPlan {
    pub backend: BackendKind,
    pub targets: Vec<Target>,
}

/// What the engine knows.
pub struct EngineView {
    pub mode: ModeView,
    pub compositor_available: bool,
    pub per_monitor_compositor: bool,
    pub snapshot: OpacityStateView,
    pub monitors: Seq<Monitor>,
}

/// The dimming engine of one process.
#[derive(Debug)]
pub struct DimmingEngine {
    mode: BackendMode,
    compositor_available: bool,
    per_monitor_compositor: bool,
    snapshot: OpacityState,
    monitors: Vec<Monitor>,
}

impl BackendMode {
    pub open spec fn view(&self) -> ModeView {
        match self {
            BackendMode::Inactive => ModeView::Inactive,
            BackendMode::CompositorEffect(ts) => ModeView::Effect(ts@),
            BackendMode::OverlaySurfaces(ss) => ModeView::Surfaces(ss@),
        }
    }
}

/// The opacity of the display at position `i`: its override or the global
/// opacity in multi-monitor mode, the global opacity otherwise.
pub open spec fn opacity_at(s: OpacityStateView, ms: Seq<Monitor>, i: int) -> u32 {
    if s.multi_monitor {
        s.opacity_for(ms[i].name@)
    } else {
        s.global_opacity
    }
}

/// How many displays a snapshot darkens: none when dimming is off or no
/// display is active, the primary one (position 0) in single-monitor mode,
/// all of them in multi-monitor mode.
pub open spec fn dimmed_count(s: OpacityStateView, ms: Seq<Monitor>) -> int {
    if !s.enabled || ms.len() == 0 {
        0
    } else if s.multi_monitor {
        ms.len() as int
    } else {
        1
    }
}

/// The displays that a snapshot darkens, in display order.
pub open spec fn targets_for(s: OpacityStateView, ms: Seq<Monitor>) -> Seq<Target> {
    Seq::new(
        dimmed_count(s, ms) as nat,
        |i: int| Target { monitor_index: i as u32, bounds: ms[i].bounds, opacity: opacity_at(s, ms, i) },
    )
}

/// True when every target has the opacity of the first.
pub open spec fn uniform(ts: Seq<Target>) -> bool {
    forall|i: int| 0 <= i < ts.len() ==> (#[trigger] ts[i]).opacity == ts[0].opacity
}

/// The compositor effect serves a session when it is available and either
/// reaches each display on its own, or the session darkens every display
/// at one opacity.
pub open spec fn backend_for(
    available: bool,
    per_monitor: bool,
    ts: Seq<Target>,
    ms: Seq<Monitor>,
) -> BackendKind {
    if available && (per_monitor || (ts.len() == ms.len() && uniform(ts))) {
        BackendKind::CompositorEffect
    } else {
        BackendKind::OverlaySurfaces
    }
}

/// The surfaces recorded for targets `ts` whose creation gave `hs`: one for
/// each created surface, in target order; a failed creation is skipped.
pub open spec fn surfaces_from(ts: Seq<Target>, hs: Seq<Option<u64>>) -> Seq<DimSurface>
    decreases hs.len(),
{
    if hs.len() == 0 {
        Seq::empty()
    } else {
        let prev = surfaces_from(ts, hs.drop_last());
        let t = ts[hs.len() - 1];
        match hs.last() {
            Some(h) => prev.push(DimSurface { monitor_index: t.monitor_index, handle: h, opacity: t.opacity }),
            None => prev,
        }
    }
}

/// How many creations succeeded.
pub open spec fn created_count(hs: Seq<Option<u64>>) -> nat
    decreases hs.len(),
{
    if hs.len() == 0 {
        0
    } else {
        created_count(hs.drop_last()) + if hs.last() is Some { 1nat } else { 0nat }
    }
}

/// The native surface handles of a mode.
pub open spec fn handles_of(m: ModeView) -> Seq<u64> {
    match m {
        ModeView::Surfaces(ss) => ss.map_values(|s: DimSurface| s.handle),
        _ => Seq::empty(),
    }
}

/// How many surfaces or effects a mode has in place.
pub open spec fn mode_count(m: ModeView) -> nat {
    match m {
        ModeView::Inactive => 0,
        ModeView::Effect(ts) => ts.len(),
        ModeView::Surfaces(ss) => ss.len(),
    }
}

/// True when an effect darkens the display at position `i`.
pub open spec fn effect_on(ts: Seq<Target>, i: int) -> bool {
    exists|k: int| 0 <= k < ts.len() && ts[k].monitor_index == i
}

/// True when a surface darkens the display at position `i`.
pub open spec fn surface_on(ss: Seq<DimSurface>, i: int) -> bool {
    exists|k: int| 0 <= k < ss.len() && ss[k].monitor_index == i
}

/// The position of the effect on the display at position `i`.
pub open spec fn effect_index(ts: Seq<Target>, i: int) -> int {
    choose|k: int| 0 <= k < ts.len() && ts[k].monitor_index == i
}

/// The position of the surface on the display at position `i`.
pub open spec fn surface_index(ss: Seq<DimSurface>, i: int) -> int {
    choose|k: int| 0 <= k < ss.len() && ss[k].monitor_index == i
}

/// The opacity applied to the display at position `i`, if it is dimmed.
pub open spec fn effective_at(m: ModeView, i: int) -> Option<u32> {
    match m {
        ModeView::Inactive => None,
        ModeView::Effect(ts) => if effect_on(ts, i) {
            Some(ts[effect_index(ts, i)].opacity)
        } else {
            None
        },
        ModeView::Surfaces(ss) => if surface_on(ss, i) {
            Some(ss[surface_index(ss, i)].opacity)
        } else {
            None
        },
    }
}

/// The engine after [`DimmingEngine::hide_overlay`].
pub open spec fn hidden(e: EngineView) -> EngineView {
    EngineView { mode: ModeView::Inactive, ..e }
}

/// The engine after [`DimmingEngine::commit_effect`].
pub open spec fn after_effect(
    e: EngineView,
    s: OpacityStateView,
    ms: Seq<Monitor>,
    applied: bool,
) -> EngineView {
    let ts = targets_for(s, ms);
    if applied {
        EngineView {
            mode: if ts.len() > 0 { ModeView::Effect(ts) } else { ModeView::Inactive },
            snapshot: s,
            monitors: ms,
            ..e
        }
    } else {
        EngineView {
            mode: ModeView::Inactive,
            compositor_available: false,
            snapshot: s,
            monitors: ms,
            ..e
        }
    }
}

/// The engine after [`DimmingEngine::commit_surfaces`].
pub open spec fn after_surfaces(
    e: EngineView,
    s: OpacityStateView,
    ms: Seq<Monitor>,
    hs: Seq<Option<u64>>,
) -> EngineView {
    let ss = surfaces_from(targets_for(s, ms), hs);
    EngineView {
        mode: if ss.len() > 0 { ModeView::Surfaces(ss) } else { ModeView::Inactive },
        snapshot: s,
        monitors: ms,
        ..e
    }
}

/// The mode after [`DimmingEngine::set_opacity`]: every effect and surface
/// keeps its display and takes the opacity that the new snapshot gives it.
pub open spec fn retuned(m: ModeView, s: OpacityStateView, ms: Seq<Monitor>) -> ModeView {
    match m {
        ModeView::Inactive => ModeView::Inactive,
        ModeView::Effect(ts) => ModeView::Effect(
            ts.map_values(|t: Target| Target { opacity: opacity_at(s, ms, t.monitor_index as int), ..t }),
        ),
        ModeView::Surfaces(ss) => ModeView::Surfaces(
            ss.map_values(
                |x: DimSurface| DimSurface { opacity: opacity_at(s, ms, x.monitor_index as int), ..x },
            ),
        ),
    }
}

/// Every effect and surface of a mode has the opacity that the snapshot
/// `s` gives its display.
pub open spec fn mode_matches(m: ModeView, s: OpacityStateView, ms: Seq<Monitor>) -> bool {
    match m {
        ModeView::Inactive => true,
        ModeView::Effect(ts) => forall|k: int|
            0 <= k < ts.len() ==> (#[trigger] ts[k]).opacity == opacity_at(s, ms, ts[k].monitor_index as int),
        ModeView::Surfaces(ss) => forall|k: int|
            0 <= k < ss.len() ==> (#[trigger] ss[k]).opacity == opacity_at(s, ms, ss[k].monitor_index as int),
    }
}

/// A mode is well formed over `n` displays: a dimming session has at least
/// one effect or surface, each on a distinct display below `n` in
/// increasing display order, each at an accepted opacity.
pub open spec fn mode_wf(m: ModeView, n: int) -> bool {
    match m {
        ModeView::Inactive => true,
        ModeView::Effect(ts) => {
            &&& ts.len() > 0
            &&& forall|k: int|
                0 <= k < ts.len() ==> (#[trigger] ts[k]).monitor_index < n && valid_opacity(
                    ts[k].opacity as int,
                )
            &&& forall|a: int, b: int|
                0 <= a < b < ts.len() ==> (#[trigger] ts[a]).monitor_index < (#[trigger] ts[b]).monitor_index
        },
        ModeView::Surfaces(ss) => {
            &&& ss.len() > 0
            &&& forall|k: int|
                0 <= k < ss.len() ==> (#[trigger] ss[k]).monitor_index < n && valid_opacity(
                    ss[k].opacity as int,
                )
            &&& forall|a: int, b: int|
                0 <= a < b < ss.len() ==> (#[trigger] ss[a]).monitor_index < (#[trigger] ss[b]).monitor_index
        },
    }
}

proof fn lemma_targets_shape(s: OpacityStateView, ms: Seq<Monitor>)
    requires
        s.opacities_valid(),
        ms.len() < u32::MAX,
    ensures
        targets_for(s, ms).len() <= ms.len(),
        forall|k: int|
            0 <= k < targets_for(s, ms).len() ==> (#[trigger] targets_for(s, ms)[k]).monitor_index == k
                && valid_opacity(targets_for(s, ms)[k].opacity as int),
{
    assert forall|k: int| 0 <= k < targets_for(s, ms).len() implies (#[trigger] targets_for(
        s,
        ms,
    )[k]).monitor_index == k && valid_opacity(targets_for(s, ms)[k].opacity as int) by {
        if s.multi_monitor {
            let name = ms[k].name@;
            if s.overrides.contains_key(name) {
                assert(valid_opacity(s.overrides[name] as int));
            }
        }
    }
}

proof fn lemma_surfaces_shape(ts: Seq<Target>, hs: Seq<Option<u64>>)
    requires
        hs.len() <= ts.len(),
        forall|k: int| 0 <= k < ts.len() ==> (#[trigger] ts[k]).monitor_index == k && valid_opacity(ts[k].opacity as int),
    ensures
        surfaces_from(ts, hs).len() == created_count(hs),
        created_count(hs) <= hs.len(),
        forall|k: int|
            0 <= k < surfaces_from(ts, hs).len() ==> (#[trigger] surfaces_from(ts, hs)[k]).monitor_index
                < hs.len() && surfaces_from(ts, hs)[k].opacity == ts[surfaces_from(ts, hs)[k].monitor_index as int].opacity
                && valid_opacity(surfaces_from(ts, hs)[k].opacity as int),
        forall|a: int, b: int|
            0 <= a < b < surfaces_from(ts, hs).len() ==> (#[trigger] surfaces_from(ts, hs)[a]).monitor_index
                < (#[trigger] surfaces_from(ts, hs)[b]).monitor_index,
    decreases hs.len(),
{
    if hs.len() > 0 {
        lemma_surfaces_shape(ts, hs.drop_last());
        let prev = surfaces_from(ts, hs.drop_last());
        let cur = surfaces_from(ts, hs);
        let t = ts[hs.len() - 1];
        assert(t.monitor_index == hs.len() - 1);
        if hs.last() is Some {
            assert forall|a: int, b: int| 0 <= a < b < cur.len() implies (#[trigger] cur[a]).monitor_index
                < (#[trigger] cur[b]).monitor_index by {
                if b < prev.len() {
                    assert(cur[a] == prev[a] && cur[b] == prev[b]);
                } else {
                    assert(cur[a] == prev[a]);
                }
            }
            assert forall|k: int| 0 <= k < cur.len() implies (#[trigger] cur[k]).monitor_index < hs.len()
                && cur[k].opacity == ts[cur[k].monitor_index as int].opacity && valid_opacity(
                cur[k].opacity as int,
            ) by {
                if k < prev.len() {
                    assert(cur[k] == prev[k]);
                }
            }
        }
    }
}

impl DimmingEngine {
    pub closed spec fn view(&self) -> EngineView {
        EngineView {
            mode: self.mode.view(),
            compositor_available: self.compositor_available,
            per_monitor_compositor: self.per_monitor_compositor,
            snapshot: self.snapshot@,
            monitors: self.monitors@,
        }
    }

    /// The engine's invariant.
    pub closed spec fn wf(&self) -> bool {
        &&& self.snapshot.wf()
        &&& self.monitors@.len() < u32::MAX
        &&& mode_wf(self.mode.view(), self.monitors@.len() as int)
        &&& mode_matches(self.mode.view(), self.snapshot@, self.monitors@)
    }

    /// An engine with nothing shown. `compositor_available` says whether the
    /// platform offers a compositor colour transform; `per_monitor_compositor`
    /// whether that transform reaches each display on its own.
    pub fn new(compositor_available: bool, per_monitor_compositor: bool) -> (r: DimmingEngine)
        ensures
            r.wf(),
            r.view().mode is Inactive,
            r.view().compositor_available == compositor_available,
            r.view().per_monitor_compositor == per_monitor_compositor,
            r.view().monitors.len() == 0,
            !r.view().snapshot.enabled,
    {
        DimmingEngine {
            mode: BackendMode::Inactive,
            compositor_available,
            per_monitor_compositor,
            snapshot: OpacityState::new(false, 0, false),
            monitors: Vec::new(),
        }
    }

    /// True while some display is darkened: exactly when an effect or a
    /// surface is in place.
    pub fn is_visible(&self) -> (b: bool)
        requires
            self.wf(),
        ensures
            b == !(self.view().mode is Inactive),
            b == (mode_count(self.view().mode) > 0),
    {
        match self.mode {
            BackendMode::Inactive => false,
            _ => true,
        }
    }

    /// How many effects or overlay surfaces are in place.
    pub fn get_monitor_count(&self) -> (n: u32)
        requires
            self.wf(),
        ensures
            n == mode_count(self.view().mode),
            (n == 0) == (self.view().mode is Inactive),
    {
        match &self.mode {
            BackendMode::Inactive => 0,
            BackendMode::CompositorEffect(ts) => {
                proof {
                    lemma_mode_count_bounded(self.mode.view(), self.monitors@.len() as int);
                }
                ts.len() as u32
            },
            BackendMode::OverlaySurfaces(ss) => {
                proof {
                    lemma_mode_count_bounded(self.mode.view(), self.monitors@.len() as int);
                }
                ss.len() as u32
            },
        }
    }

    /// Ends the session: the engine tracks nothing afterwards. Returns the
    /// handles of every tracked overlay surface, which the caller destroys
    /// (tolerating any that were already destroyed) after restoring the
    /// identity colour transform. Calling it again returns nothing.
    pub fn hide_overlay(&mut self) -> (destroy: Vec<u64>)
        requires
            old(self).wf(),
        ensures
            final(self).wf(),
            final(self).view() == hidden(old(self).view()),
            destroy@ == handles_of(old(self).view().mode),
    {
        let mut destroy: Vec<u64> = Vec::new();
        if let BackendMode::OverlaySurfaces(ss) = &self.mode {
            let mut i: usize = 0;
            while i < ss.len()
                invariant
                    i <= ss@.len(),
                    destroy@ == ss@.take(i as int).map_values(|s: DimSurface| s.handle),
                decreases ss@.len() - i,
            {
                destroy.push(ss[i].handle);
                proof {
                    assert(ss@.take(i + 1).map_values(|s: DimSurface| s.handle) =~= ss@.take(
                        i as int,
                    ).map_values(|s: DimSurface| s.handle).push(ss@[i as int].handle));
                }
                i += 1;
            }
            proof {
                assert(ss@.take(i as int) =~= ss@);
            }
        }
        self.mode = BackendMode::Inactive;
        destroy
    }

    /// Plans a session for `snapshot` over `monitors`: the displays to
    /// darken with their opacities, and the backend to use.
    pub fn plan_show(&self, snapshot: &OpacityState, monitors: &Vec<Monitor>) -> (plan: ShowPlan)
        requires
            snapshot.wf(),
            monitors@.len() < u32::MAX,
        ensures
            plan.targets@ == targets_for(snapshot@, monitors@),
            plan.backend == backend_for(
                self.view().compositor_available,
                self.view().per_monitor_compositor,
                plan.targets@,
                monitors@,
            ),
    {
        let targets = compute_targets(snapshot, monitors);
        let mut same = true;
        let mut i: usize = 0;
        while i < targets.len()
            invariant
                i <= targets@.len(),
                same == forall|k: int| 0 <= k < i ==> (#[trigger] targets@[k]).opacity == targets@[0].opacity,
            decreases targets@.len() - i,
        {
            if targets[i].opacity != targets[0].opacity {
                same = false;
            }
            i += 1;
        }
        let backend = if self.compositor_available && (self.per_monitor_compositor || (targets.len()
            == monitors.len() && same)) {
            BackendKind::CompositorEffect
        } else {
            BackendKind::OverlaySurfaces
        };
        ShowPlan { backend, targets }
    }

    /// Records a session planned on the compositor effect. `applied` says
    /// whether the effect was put in place on every target; when it was not
    /// (the backend is unavailable) nothing is shown, and the engine plans
    /// overlay surfaces from then on.
    pub fn commit_effect(&mut self, snapshot: OpacityState, monitors: Vec<Monitor>, applied: bool)
        requires
            old(self).wf(),
            old(self).view().mode is Inactive,
            snapshot.wf(),
            monitors@.len() < u32::MAX,
        ensures
            final(self).wf(),
            final(self).view() == after_effect(old(self).view(), snapshot@, monitors@, applied),
    {
        let targets = compute_targets(&snapshot, &monitors);
        proof {
            lemma_wf_opacities_valid(&snapshot);
            lemma_targets_shape(snapshot@, monitors@);
        }
        if applied {
            if targets.len() > 0 {
                self.mode = BackendMode::CompositorEffect(targets);
            }
        } else {
            self.compositor_available = false;
        }
        self.snapshot = snapshot;
        self.monitors = monitors;
    }

    /// Records a session on overlay surfaces. `handles[i]` is the surface
    /// created for the `i`-th planned target, or `None` where its creation
    /// failed; that display is skipped. Returns how many surfaces are now
    /// tracked.
    pub fn commit_surfaces(
        &mut self,
        snapshot: OpacityState,
        monitors: Vec<Monitor>,
        handles: &Vec<Option<u64>>,
    ) -> (n: usize)
        requires
            old(self).wf(),
            old(self).view().mode is Inactive,
            snapshot.wf(),
            monitors@.len() < u32::MAX,
            handles@.len() == targets_for(snapshot@, monitors@).len(),
        ensures
            final(self).wf(),
            final(self).view() == after_surfaces(old(self).view(), snapshot@, monitors@, handles@),
            n == created_count(handles@),
            n == mode_count(final(self).view().mode),
    {
        let targets = compute_targets(&snapshot, &monitors);
        proof {
            lemma_wf_opacities_valid(&snapshot);
            lemma_targets_shape(snapshot@, monitors@);
        }
        let mut ss: Vec<DimSurface> = Vec::new();
        let mut i: usize = 0;
        while i < handles.len()
            invariant
                i <= handles@.len() == targets@.len(),
                ss@ == surfaces_from(targets@, handles@.take(i as int)),
            decreases handles@.len() - i,
        {
            proof {
                assert(handles@.take(i + 1).drop_last() =~= handles@.take(i as int));
            }
            if let Some(h) = handles[i] {
                ss.push(DimSurface { monitor_index: targets[i].monitor_index, handle: h, opacity: targets[i].opacity });
            }
            i += 1;
        }
        proof {
            assert(handles@.take(i as int) =~= handles@);
            lemma_surfaces_shape(targets@, handles@);
        }
        let n = ss.len();
        if n > 0 {
            self.mode = BackendMode::OverlaySurfaces(ss);
        }
        self.snapshot = snapshot;
        self.monitors = monitors;
        n
    }
}

impl DimmingEngine {
    /// Applies a new opacity snapshot to the session in place: every effect
    /// and surface keeps its display and takes the opacity the snapshot gives
    /// it, without being destroyed or recreated. Returns the updated mode,
    /// which the caller applies (a new brightness per effect, a new alpha per
    /// surface). A change of the enabled or multi-monitor flag takes a new
    /// session instead.
    pub fn set_opacity(&mut self, snapshot: OpacityState) -> (r: BackendMode)
        requires
            old(self).wf(),
            snapshot.wf(),
        ensures
            final(self).wf(),
            final(self).view() == (EngineView {
                mode: retuned(old(self).view().mode, snapshot@, old(self).view().monitors),
                snapshot: snapshot@,
                ..old(self).view()
            }),
            r.view() == final(self).view().mode,
    {
        proof {
            lemma_wf_opacities_valid(&snapshot);
        }
        let ghost ms = self.monitors@;
        let mode = match &self.mode {
            BackendMode::Inactive => BackendMode::Inactive,
            BackendMode::CompositorEffect(ts) => {
                let mut out: Vec<Target> = Vec::new();
                let mut i: usize = 0;
                while i < ts.len()
                    invariant
                        i <= ts@.len(),
                        ms == self.monitors@,
                        snapshot.wf(),
                        snapshot@.opacities_valid(),
                        mode_wf(ModeView::Effect(ts@), ms.len() as int),
                        out@ == ts@.take(i as int).map_values(
                            |t: Target| Target { opacity: opacity_at(snapshot@, ms, t.monitor_index as int), ..t },
                        ),
                        forall|k: int| 0 <= k < out@.len() ==> valid_opacity(#[trigger] out@[k].opacity as int),
                    decreases ts@.len() - i,
                {
                    let t = ts[i];
                    assert(t.monitor_index < ms.len());
                    let o = self.opacity_of_monitor(&snapshot, t.monitor_index as usize);
                    out.push(Target { opacity: o, ..t });
                    proof {
                        assert(out@ =~= ts@.take(i + 1).map_values(
                            |t: Target| Target { opacity: opacity_at(snapshot@, ms, t.monitor_index as int), ..t },
                        ));
                    }
                    i += 1;
                }
                proof {
                    assert(ts@.take(i as int) =~= ts@);
                }
                BackendMode::CompositorEffect(out)
            },
            BackendMode::OverlaySurfaces(ss) => {
                let mut out: Vec<DimSurface> = Vec::new();
                let mut i: usize = 0;
                while i < ss.len()
                    invariant
                        i <= ss@.len(),
                        ms == self.monitors@,
                        snapshot.wf(),
                        snapshot@.opacities_valid(),
                        mode_wf(ModeView::Surfaces(ss@), ms.len() as int),
                        out@ == ss@.take(i as int).map_values(
                            |x: DimSurface| DimSurface { opacity: opacity_at(snapshot@, ms, x.monitor_index as int), ..x },
                        ),
                        forall|k: int| 0 <= k < out@.len() ==> valid_opacity(#[trigger] out@[k].opacity as int),
                    decreases ss@.len() - i,
                {
                    let x = ss[i];
                    assert(x.monitor_index < ms.len());
                    let o = self.opacity_of_monitor(&snapshot, x.monitor_index as usize);
                    out.push(DimSurface { opacity: o, ..x });
                    proof {
                        assert(out@ =~= ss@.take(i + 1).map_values(
                            |x: DimSurface| DimSurface { opacity: opacity_at(snapshot@, ms, x.monitor_index as int), ..x },
                        ));
                    }
                    i += 1;
                }
                proof {
                    assert(ss@.take(i as int) =~= ss@);
                }
                BackendMode::OverlaySurfaces(out)
            },
        };
        let r = copy_mode(&mode);
        self.mode = mode;
        self.snapshot = snapshot;
        r
    }

    /// The opacity that `snapshot` gives the display at position `i`.
    fn opacity_of_monitor(&self, snapshot: &OpacityState, i: usize) -> (o: u32)
        requires
            snapshot.wf(),
            i < self.monitors@.len(),
        ensures
            o == opacity_at(snapshot@, self.monitors@, i as int),
            valid_opacity(o as int),
    {
        if snapshot.multi_monitor {
            snapshot.opacity_for(&self.monitors[i].name)
        } else {
            snapshot.global_opacity
        }
    }

    /// The opacity applied to the display at position `monitor_index`, read
    /// back from the effect or surface that darkens it; `None` where the
    /// display is not dimmed.
    pub fn effective_opacity(&self, monitor_index: u32) -> (r: Option<u32>)
        requires
            self.wf(),
        ensures
            r == effective_at(self.view().mode, monitor_index as int),
            r is Some ==> r->0 == opacity_at(self.view().snapshot, self.view().monitors, monitor_index as int),
    {
        match &self.mode {
            BackendMode::Inactive => None,
            BackendMode::CompositorEffect(ts) => {
                let mut i: usize = 0;
                while i < ts.len()
                    invariant
                        i <= ts@.len(),
                        mode_wf(ModeView::Effect(ts@), self.monitors@.len() as int),
                        self.mode.view() == ModeView::Effect(ts@),
                        mode_matches(ModeView::Effect(ts@), self.snapshot@, self.monitors@),
                        forall|k: int| 0 <= k < i ==> (#[trigger] ts@[k]).monitor_index != monitor_index,
                    decreases ts@.len() - i,
                {
                    if ts[i].monitor_index == monitor_index {
                        proof {
                            let mi = monitor_index as int;
                            assert(0 <= i < ts@.len() && ts@[i as int].monitor_index == mi);
                            let c = effect_index(ts@, mi);
                            if c < i {
                                assert(ts@[c].monitor_index < ts@[i as int].monitor_index);
                            } else if c > i {
                                assert(ts@[i as int].monitor_index < ts@[c].monitor_index);
                            }
                        }
                        return Some(ts[i].opacity);
                    }
                    i += 1;
                }
                None
            },
            BackendMode::OverlaySurfaces(ss) => {
                let mut i: usize = 0;
                while i < ss.len()
                    invariant
                        i <= ss@.len(),
                        mode_wf(ModeView::Surfaces(ss@), self.monitors@.len() as int),
                        self.mode.view() == ModeView::Surfaces(ss@),
                        mode_matches(ModeView::Surfaces(ss@), self.snapshot@, self.monitors@),
                        forall|k: int| 0 <= k < i ==> (#[trigger] ss@[k]).monitor_index != monitor_index,
                    decreases ss@.len() - i,
                {
                    if ss[i].monitor_index == monitor_index {
                        proof {
                            let mi = monitor_index as int;
                            assert(0 <= i < ss@.len() && ss@[i as int].monitor_index == mi);
                            let c = surface_index(ss@, mi);
                            if c < i {
                                assert(ss@[c].monitor_index < ss@[i as int].monitor_index);
                            } else if c > i {
                                assert(ss@[i as int].monitor_index < ss@[c].monitor_index);
                            }
                        }
                        return Some(ss[i].opacity);
                    }
                    i += 1;
                }
                None
            },
        }
    }

    /// The session as it stands, for the caller to put back in front: every
    /// effect to re-apply (a platform may reset colour transforms on a space
    /// change or wake) or every surface to raise to the top again.
    pub fn reorder_front(&self) -> (r: BackendMode)
        ensures
            r.view() == self.view().mode,
    {
        copy_mode(&self.mode)
    }

    /// The handles of every tracked overlay surface.
    pub fn tracked_handles(&self) -> (r: Vec<u64>)
        ensures
            r@ == handles_of(self.view().mode),
    {
        let mut r: Vec<u64> = Vec::new();
        if let BackendMode::OverlaySurfaces(ss) = &self.mode {
            let mut i: usize = 0;
            while i < ss.len()
                invariant
                    i <= ss@.len(),
                    r@ == ss@.take(i as int).map_values(|s: DimSurface| s.handle),
                decreases ss@.len() - i,
            {
                r.push(ss[i].handle);
                proof {
                    assert(ss@.take(i + 1).map_values(|s: DimSurface| s.handle) =~= ss@.take(
                        i as int,
                    ).map_values(|s: DimSurface| s.handle).push(ss@[i as int].handle));
                }
                i += 1;
            }
            proof {
                assert(ss@.take(i as int) =~= ss@);
            }
        }
        r
    }

    /// The names of the displays of the current session, in display order:
    /// every display, dimmed or not, for building per-display controls.
    pub fn monitor_names(&self) -> (r: Vec<String>)
        ensures
            crate::monitor::views_of(r@) == crate::monitor::monitor_names_of(self.view().monitors),
    {
        let mut r: Vec<String> = Vec::new();
        let mut i: usize = 0;
        while i < self.monitors.len()
            invariant
                i <= self.monitors@.len(),
                crate::monitor::views_of(r@) == crate::monitor::monitor_names_of(self.monitors@).take(i as int),
            decreases self.monitors@.len() - i,
        {
            let ghost before = r@;
            r.push(self.monitors[i].name.clone());
            proof {
                assert(crate::monitor::views_of(r@) =~= crate::monitor::views_of(before).push(self.monitors@[i as int].name@));
                assert(crate::monitor::views_of(r@) =~= crate::monitor::monitor_names_of(self.monitors@).take(i + 1));
            }
            i += 1;
        }
        proof {
            assert(crate::monitor::monitor_names_of(self.monitors@).take(i as int) =~= crate::monitor::monitor_names_of(self.monitors@));
        }
        r
    }

    /// Whether a change of the display configuration (a display connected
    /// or disconnected) calls for a new session: whenever dimming is
    /// enabled, even where no display was found last time, so that
    /// reconnecting a display brings the dimming back.
    pub fn should_refresh(&self) -> (r: bool)
        ensures
            r == self.view().snapshot.enabled,
    {
        self.snapshot.enabled
    }

    /// A copy of the snapshot of the current session, from which the
    /// session is rebuilt when a surface was destroyed from outside.
    pub fn current_snapshot(&self) -> (r: OpacityState)
        requires
            self.wf(),
        ensures
            r.wf(),
            r@ == self.view().snapshot,
    {
        self.snapshot.copy()
    }
}

/// A copy of a mode.
fn copy_mode(m: &BackendMode) -> (r: BackendMode)
    ensures
        r.view() == m.view(),
{
    match m {
        BackendMode::Inactive => BackendMode::Inactive,
        BackendMode::CompositorEffect(ts) => {
            let mut out: Vec<Target> = Vec::new();
            let mut i: usize = 0;
            while i < ts.len()
                invariant
                    i <= ts@.len(),
                    out@ == ts@.take(i as int),
                decreases ts@.len() - i,
            {
                out.push(ts[i]);
                proof {
                    assert(out@ =~= ts@.take(i + 1));
                }
                i += 1;
            }
            proof {
                assert(ts@.take(i as int) =~= ts@);
            }
            BackendMode::CompositorEffect(out)
        },
        BackendMode::OverlaySurfaces(ss) => {
            let mut out: Vec<DimSurface> = Vec::new();
            let mut i: usize = 0;
            while i < ss.len()
                invariant
                    i <= ss@.len(),
                    out@ == ss@.take(i as int),
                decreases ss@.len() - i,
            {
                out.push(ss[i]);
                proof {
                    assert(out@ =~= ss@.take(i + 1));
                }
                i += 1;
            }
            proof {
                assert(ss@.take(i as int) =~= ss@);
            }
            BackendMode::OverlaySurfaces(out)
        },
    }
}

/// The displays that `snapshot` darkens over `monitors`.
fn compute_targets(snapshot: &OpacityState, monitors: &Vec<Monitor>) -> (ts: Vec<Target>)
    requires
        snapshot.wf(),
        monitors@.len() < u32::MAX,
    ensures
        ts@ == targets_for(snapshot@, monitors@),
{
    let n: usize = if !snapshot.enabled || monitors.len() == 0 {
        0
    } else if snapshot.multi_monitor {
        monitors.len()
    } else {
        1
    };
    let mut ts: Vec<Target> = Vec::new();
    let mut i: usize = 0;
    while i < n
        invariant
            n == dimmed_count(snapshot@, monitors@),
            n <= monitors@.len() < u32::MAX,
            i <= n,
            snapshot.wf(),
            ts@ == targets_for(snapshot@, monitors@).take(i as int),
        decreases n - i,
    {
        let opacity = if snapshot.multi_monitor {
            snapshot.opacity_for(&monitors[i].name)
        } else {
            snapshot.global_opacity
        };
        ts.push(Target { monitor_index: i as u32, bounds: monitors[i].bounds, opacity });
        proof {
            assert(ts@ =~= targets_for(snapshot@, monitors@).take(i + 1));
        }
        i += 1;
    }
    proof {
        assert(ts@ =~= targets_for(snapshot@, monitors@));
    }
    ts
}

proof fn lemma_mode_count_bounded(m: ModeView, n: int)
    requires
        mode_wf(m, n),
        0 <= n < u32::MAX,
    ensures
        mode_count(m) <= n,
{
    match m {
        ModeView::Effect(ts) => {
            let v = ts.map_values(|t: Target| t.monitor_index as int);
            assert forall|k: int| 0 <= k < v.len() implies 0 <= #[trigger] v[k] < n by {
                assert(ts[k].monitor_index < n);
            }
            assert forall|a: int, b: int| 0 <= a < b < v.len() implies #[trigger] v[a] < #[trigger] v[b] by {
                assert(ts[a].monitor_index < ts[b].monitor_index);
            }
            lemma_increasing_bounded(v, n);
            assert(v.len() == ts.len());
        },
        ModeView::Surfaces(ss) => {
            let v = ss.map_values(|x: DimSurface| x.monitor_index as int);
            assert forall|k: int| 0 <= k < v.len() implies 0 <= #[trigger] v[k] < n by {
                assert(ss[k].monitor_index < n);
            }
            assert forall|a: int, b: int| 0 <= a < b < v.len() implies #[trigger] v[a] < #[trigger] v[b] by {
                assert(ss[a].monitor_index < ss[b].monitor_index);
            }
            lemma_increasing_bounded(v, n);
            assert(v.len() == ss.len());
        },
        ModeView::Inactive => {},
    }
}

proof fn lemma_increasing_bounded(v: Seq<int>, n: int)
    requires
        0 <= n,
        forall|k: int| 0 <= k < v.len() ==> 0 <= #[trigger] v[k] < n,
        forall|a: int, b: int| 0 <= a < b < v.len() ==> #[trigger] v[a] < #[trigger] v[b],
    ensures
        v.len() <= n,
    decreases v.len(),
{
    if v.len() > 0 {
        let w = v.drop_last();
        assert forall|k: int| 0 <= k < w.len() implies 0 <= #[trigger] w[k] < v.last() by {
            assert(v[k] < v[v.len() - 1]);
        }
        assert forall|a: int, b: int| 0 <= a < b < w.len() implies #[trigger] w[a] < #[trigger] w[b] by {
            assert(v[a] < v[b]);
        }
        assert(0 <= v[v.len() - 1] < n);
        lemma_increasing_bounded(w, v.last());
    }
}

proof fn lemma_surfaces_at(ts: Seq<Target>, hs: Seq<Option<u64>>, i: int)
    requires
        hs.len() <= ts.len(),
        0 <= i < hs.len(),
        forall|k: int| 0 <= k < ts.len() ==> (#[trigger] ts[k]).monitor_index == k && valid_opacity(ts[k].opacity as int),
    ensures
        (exists|k: int| 0 <= k < surfaces_from(ts, hs).len() && surfaces_from(ts, hs)[k].monitor_index == i)
            <==> hs[i] is Some,
    decreases hs.len(),
{
    let cur = surfaces_from(ts, hs);
    let prev = surfaces_from(ts, hs.drop_last());
    lemma_surfaces_shape(ts, hs.drop_last());
    if i < hs.len() - 1 {
        lemma_surfaces_at(ts, hs.drop_last(), i);
        if (exists|k: int| 0 <= k < cur.len() && cur[k].monitor_index == i) {
            let k = choose|k: int| 0 <= k < cur.len() && cur[k].monitor_index == i;
            if k < prev.len() {
                assert(prev[k] == cur[k]);
            }
        }
        if hs[i] is Some {
            let k = choose|k: int| 0 <= k < prev.len() && prev[k].monitor_index == i;
            assert(cur[k] == prev[k]);
        }
    } else {
        if hs[i] is Some {
            assert(cur[prev.len() as int].monitor_index == i);
        } else {
            if (exists|k: int| 0 <= k < cur.len() && cur[k].monitor_index == i) {
                let k = choose|k: int| 0 <= k < cur.len() && cur[k].monitor_index == i;
                assert(prev[k].monitor_index < hs.drop_last().len());
            }
        }
    }
}

/// Read back after a session on overlay surfaces: a display whose surface
/// was created reports the opacity that the snapshot gives it, a display
/// whose creation failed, or that the snapshot leaves alone, reports none.
pub proof fn lemma_surfaces_read_back(
    e: EngineView,
    s: OpacityStateView,
    ms: Seq<Monitor>,
    hs: Seq<Option<u64>>,
    i: int,
)
    requires
        s.opacities_valid(),
        ms.len() < u32::MAX,
        hs.len() == targets_for(s, ms).len(),
        0 <= i < ms.len(),
    ensures
        effective_at(after_surfaces(e, s, ms, hs).mode, i) == if i < hs.len() && hs[i] is Some {
            Some(opacity_at(s, ms, i))
        } else {
            None::<u32>
        },
{
    let ts = targets_for(s, ms);
    lemma_targets_shape(s, ms);
    lemma_surfaces_shape(ts, hs);
    let ss = surfaces_from(ts, hs);
    let m = after_surfaces(e, s, ms, hs).mode;
    if i < hs.len() {
        lemma_surfaces_at(ts, hs, i);
        if hs[i] is Some {
            let k = surface_index(ss, i);
            assert(ss.len() > 0);
            assert(m == ModeView::Surfaces(ss));
            assert(ss[k].opacity == ts[i].opacity);
            assert(effective_at(m, i) == Some(ss[k].opacity));
        } else if ss.len() > 0 {
            assert(m == ModeView::Surfaces(ss));
            assert(!(exists|k: int| 0 <= k < ss.len() && ss[k].monitor_index == i));
        }
    } else if ss.len() > 0 {
        assert(m == ModeView::Surfaces(ss));
        assert forall|k: int| 0 <= k < ss.len() implies ss[k].monitor_index != i by {
            assert(ss[k].monitor_index < hs.len());
        }
    }
}

/// Read back after a session on the compositor effect: every display the
/// snapshot darkens reports the opacity the snapshot gives it, and the
/// others none.
pub proof fn lemma_effect_read_back(e: EngineView, s: OpacityStateView, ms: Seq<Monitor>, i: int)
    requires
        s.opacities_valid(),
        ms.len() < u32::MAX,
        0 <= i < ms.len(),
    ensures
        effective_at(after_effect(e, s, ms, true).mode, i) == if i < dimmed_count(s, ms) {
            Some(opacity_at(s, ms, i))
        } else {
            None::<u32>
        },
{
    let ts = targets_for(s, ms);
    lemma_targets_shape(s, ms);
    let m = after_effect(e, s, ms, true).mode;
    if i < dimmed_count(s, ms) {
        assert(0 <= i < ts.len() && ts[i].monitor_index == i);
        assert(m == ModeView::Effect(ts));
        let k = effect_index(ts, i);
        assert(k == i);
    } else if ts.len() > 0 {
        assert(m == ModeView::Effect(ts));
        assert forall|k: int| 0 <= k < ts.len() implies ts[k].monitor_index != i by {
            assert(ts[k].monitor_index == k);
        }
    }
}

/// Any requested opacity, in range or not, is clamped and never rejected,
/// and reads back as the clamped value: from the primary display of a
/// single-monitor session on either backend, from an overlay's alpha value
/// and from the compositor's brightness factor.
pub proof fn lemma_requested_opacity_reads_back(
    e: EngineView,
    requested: int,
    s: OpacityStateView,
    ms: Seq<Monitor>,
    hs: Seq<Option<u64>>,
)
    requires
        s.opacities_valid(),
        s.enabled,
        !s.multi_monitor,
        s.global_opacity as int == crate::opacity::clamped(requested),
        0 < ms.len() < u32::MAX,
        hs.len() == targets_for(s, ms).len(),
        hs[0] is Some,
    ensures
        ({
            let o = crate::opacity::clamped(requested);
            &&& effective_at(after_surfaces(e, s, ms, hs).mode, 0) == Some(o as u32)
            &&& effective_at(after_effect(e, s, ms, true).mode, 0) == Some(o as u32)
            &&& crate::opacity::opacity_of_alpha(crate::opacity::alpha_of(o)) == o
            &&& 100 - crate::opacity::brightness_of(o) == o
        }),
{
    let o = crate::opacity::clamped(requested);
    crate::opacity::lemma_clamp_keeps_valid(requested);
    lemma_surfaces_read_back(e, s, ms, hs, 0);
    lemma_effect_read_back(e, s, ms, 0);
    crate::opacity::lemma_alpha_round_trip(o);
    crate::opacity::lemma_brightness_round_trip(o);
}

/// Hiding is idempotent: hiding twice leaves the engine as hiding once
/// does, and a hidden engine has no effect or surface left and nothing to
/// destroy.
pub proof fn lemma_hide_idempotent(e: EngineView)
    ensures
        hidden(hidden(e)) == hidden(e),
        hidden(e).mode is Inactive,
        handles_of(hidden(e).mode).len() == 0,
        mode_count(hidden(e).mode) == 0,
{
}

/// Hiding a session and showing the same snapshot again recreates the same
/// session: the same backend is planned, and, where the native work comes
/// out the same, the same effects or surfaces, as many as before.
pub proof fn lemma_hide_then_show_recreates(
    e: EngineView,
    s: OpacityStateView,
    ms: Seq<Monitor>,
    hs: Seq<Option<u64>>,
)
    requires
        s.opacities_valid(),
        ms.len() < u32::MAX,
        hs.len() == targets_for(s, ms).len(),
    ensures
        ({
            let first = after_surfaces(e, s, ms, hs);
            let again = after_surfaces(hidden(first), s, ms, hs);
            &&& again.mode == first.mode
            &&& mode_count(again.mode) == created_count(hs)
            &&& backend_for(
                hidden(first).compositor_available,
                hidden(first).per_monitor_compositor,
                targets_for(s, ms),
                ms,
            ) == backend_for(first.compositor_available, first.per_monitor_compositor, targets_for(s, ms), ms)
        }),
        ({
            let first = after_effect(e, s, ms, true);
            let again = after_effect(hidden(first), s, ms, true);
            &&& again.mode == first.mode
            &&& mode_count(again.mode) == targets_for(s, ms).len()
        }),
{
    lemma_targets_shape(s, ms);
    lemma_surfaces_shape(targets_for(s, ms), hs);
}

/// A session rebuilt from the snapshot it recorded, after the watchdog
/// found one of its surfaces destroyed from outside, darkens every display
/// whose surface is created again at the opacity it had before.
pub proof fn lemma_rebuild_keeps_opacity(
    e: EngineView,
    s: OpacityStateView,
    ms: Seq<Monitor>,
    hs: Seq<Option<u64>>,
    again: Seq<Option<u64>>,
    i: int,
)
    requires
        s.opacities_valid(),
        ms.len() < u32::MAX,
        hs.len() == targets_for(s, ms).len(),
        again.len() == hs.len(),
        0 <= i < again.len(),
        again[i] is Some,
        effective_at(after_surfaces(e, s, ms, hs).mode, i) is Some,
    ensures
        ({
            let before = after_surfaces(e, s, ms, hs);
            let rebuilt = after_surfaces(hidden(before), before.snapshot, before.monitors, again);
            effective_at(rebuilt.mode, i) == effective_at(before.mode, i)
        }),
{
    lemma_targets_shape(s, ms);
    lemma_surfaces_read_back(e, s, ms, hs, i);
    let before = after_surfaces(e, s, ms, hs);
    lemma_surfaces_read_back(hidden(before), s, ms, again, i);
}

/// Display keys stay apart as override keys: any two displays, even two
/// that report the same name, are keyed apart, and an override set for
/// either key leaves the opacity resolved for the other as it was.
pub proof fn lemma_displays_resolve_independently(
    raw: Seq<Seq<char>>,
    i: int,
    j: int,
    s: OpacityStateView,
    o: u32,
)
    requires
        0 <= i < raw.len(),
        0 <= j < raw.len(),
        i != j,
    ensures
        ({
            let keys = crate::monitor::dedup_names(raw);
            let with_i = OpacityStateView { overrides: s.overrides.insert(keys[i], o), ..s };
            let with_j = OpacityStateView { overrides: s.overrides.insert(keys[j], o), ..s };
            &&& keys[i] != keys[j]
            &&& with_i.opacity_for(keys[i]) == o
            &&& with_i.opacity_for(keys[j]) == s.opacity_for(keys[j])
            &&& with_j.opacity_for(keys[j]) == o
            &&& with_j.opacity_for(keys[i]) == s.opacity_for(keys[i])
        }),
{
    crate::monitor::lemma_dedup_distinct(raw);
    crate::monitor::lemma_dedup_len(raw);
}

} // verus!
