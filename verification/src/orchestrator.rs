//! The session state that the input and render paths share: which world has the focus, which
//! pane is drawn or pointed at, and which drag is in progress.
use std::time::Instant;

use vstd::prelude::*;

use crate::geometry::Rect;
use crate::kernel::{DriverSeeds, Drivers, Kernel};
use crate::viewport::{first_match, replace_in_forest, Axis, Cell, SlotId, Viewports};

verus! {

/// `std::time::Instant`: a moment. It is only carried: nothing is claimed of it.
#[verifier::external_type_specification]
#[verifier::external_body]
pub struct ExInstant(std::time::Instant);

/// Deferred world-selection-screen request, drained where a renderer is available, so that the
/// current world can be snapshotted for its thumbnail before it is left.
#[derive(Clone, Copy, PartialEq, Eq, Structural, Debug)]
pub enum SetPickerRequest {
    Open,
}

/// While the per-region render loop draws one viewport pane (split / floating), this overrides
/// the focus: the camera is THIS pane's slot's, not the focused slot's. `None` everywhere
/// outside that loop.
#[derive(Debug)]
pub struct RenderTarget<N> {
    pub slot: SlotId,
    /// Region top-left in logical screen pixels.
    pub origin_logical: (N, N),
    /// Region size in physical pixels.
    pub size_physical: (N, N),
}

/// An in-progress separator drag (resizing two adjacent split slots): the two slots, the
/// divide axis, and the start geometry.
#[derive(Debug)]
pub struct SeparatorDrag<N> {
    pub a: SlotId,
    pub b: SlotId,
    pub axis: Axis,
    /// Physical cursor coordinate along the divide axis at drag start.
    pub start_along: N,
    /// Physical lengths of slots a and b along the axis at drag start.
    pub a_len: N,
    pub b_len: N,
    /// The weights of a and b together at drag start.
    pub sum_weight: N,
}

/// An in-progress floating-pane drag: move or resize. `index` is the floating pane; the edge
/// flags fix which sides move on resize.
#[derive(Debug)]
pub struct FloatingDrag<N> {
    pub index: usize,
    pub resize: bool,
    pub left: bool,
    pub top: bool,
    pub right: bool,
    pub bottom: bool,
    pub start_cursor: (N, N),
    pub start_rect: Rect,
}

#[derive(Debug)]
pub enum Status {
    Running,
    Locked { pending: bool, sleep: bool, time: Instant },
    Unlock { time: Instant },
    /// Always locks on sleep.
    Sleep { pending: bool },
    Terminate,
}

#[derive(Clone, Copy, PartialEq, Eq, Structural, Debug)]
pub enum StatusSession {
    Active,
    Paused,
}

/// One world: its viewports, and everything else that it stores.
pub struct World<C, N, S> {
    pub viewports: Viewports<C, N>,
    pub storage: S,
}

/// The worlds of the session and the one that new windows map into.
pub struct Worlds<C, N, S> {
    pub list: Vec<World<C, N, S>>,
    pub spawn_target: usize,
}

impl<C, N, S> Worlds<C, N, S> {
    /// Whether the spawn target is one of the worlds.
    pub open spec fn wf(&self) -> bool {
        self.spawn_target < self.list.len()
    }

    /// The spawn-target world.
    pub open spec fn focused(&self) -> World<C, N, S> {
        self.list[self.spawn_target as int]
    }
}

/// The session state; `host` is what the surrounding program hangs on it.
pub struct Orchestrator<C, N, S, H: Drivers> {
    pub start_time: Instant,
    /// Active per-region render override (see [`RenderTarget`]).
    pub render_target: Option<RenderTarget<N>>,
    /// In-progress viewport separator drag (resize), if any.
    pub separator_drag: Option<SeparatorDrag<N>>,
    /// In-progress floating-pane move/resize drag, if any.
    pub floating_drag: Option<FloatingDrag<N>>,
    pub status: Status,
    /// One-shot request to engage the lock off the render loop.
    pub lock_engage: bool,
    /// Deferred request to open the world-selection screen on a coming draw.
    pub __set_picker: Option<SetPickerRequest>,
    pub status_session: StatusSession,
    pub worlds: Worlds<C, N, S>,
    /// What the drivers publish and what is asked of them.
    pub kernel: Kernel<H>,
    pub pilot_tick: u64,
    pub host: H,
}

impl<C, N, S, H: Drivers> Orchestrator<C, N, S, H> {
    /// Whether the focus resolves to a world.
    pub open spec fn wf(&self) -> bool {
        self.worlds.wf()
    }

    /// Whether everything but the worlds is the same.
    pub open spec fn same_but_worlds(&self, other: &Self) -> bool {
        &&& self.start_time == other.start_time
        &&& self.render_target == other.render_target
        &&& self.separator_drag == other.separator_drag
        &&& self.floating_drag == other.floating_drag
        &&& self.same_but_worlds_and_drags(other)
    }

    /// Whether everything but the worlds, the render override and the drags is the same.
    pub open spec fn same_but_worlds_and_drags(&self, other: &Self) -> bool {
        &&& self.start_time == other.start_time
        &&& self.status == other.status
        &&& self.lock_engage == other.lock_engage
        &&& self.__set_picker == other.__set_picker
        &&& self.status_session == other.status_session
        &&& self.kernel == other.kernel
        &&& self.pilot_tick == other.pilot_tick
        &&& self.host == other.host
    }

    /// Whether the worlds are those of `other` but for the focused one, which is `world`.
    pub open spec fn worlds_with(&self, other: &Self, world: World<C, N, S>) -> bool {
        &&& self.worlds.spawn_target == other.worlds.spawn_target
        &&& self.worlds.list@ == other.worlds.list@.update(
            other.worlds.spawn_target as int,
            world,
        )
    }

    /// The viewports of the focused world.
    pub open spec fn focused_viewports(&self) -> Viewports<C, N> {
        self.worlds.focused().viewports
    }

    /// The pane being drawn, if it is among the panes.
    pub open spec fn drawn_cell(&self) -> Option<Cell<C, N>> {
        match self.render_target {
            Some(rt) => first_match(self.focused_viewports().in_order(), rt.slot),
            None => None,
        }
    }

    /// Whether a camera is there to look through.
    pub open spec fn has_camera(&self) -> bool {
        self.wf() && (self.drawn_cell() is Some || self.focused_viewports().has_focus())
    }

    /// The slot whose camera is looked through: the pane being drawn, else the focused one.
    pub open spec fn camera_cell(&self) -> Cell<C, N> {
        match self.drawn_cell() {
            Some(c) => c,
            None => self.focused_viewports().focus_cell(),
        }
    }

    /// The identity through which the camera is written.
    pub open spec fn camera_id(&self) -> SlotId {
        match self.drawn_cell() {
            Some(_) => self.render_target.unwrap().slot,
            None => self.focused_viewports().focus_id(),
        }
    }

    /// A session at its start: running, active, nothing drawn, dragged or requested, and the
    /// driver slots at theirs.
    pub fn new(
        start_time: Instant,
        nested: bool,
        drivers: DriverSeeds<H>,
        worlds: Worlds<C, N, S>,
        host: H,
    ) -> (r: Self)
        ensures
            r.start_time == start_time,
            r.render_target is None,
            r.separator_drag is None,
            r.floating_drag is None,
            r.status is Running,
            r.lock_engage == false,
            r.__set_picker is None,
            r.status_session == StatusSession::Active,
            r.worlds == worlds,
            r.kernel.seeded(nested, drivers),
            r.kernel.nested == nested,
            !r.kernel.vblank_seen,
            !r.kernel.display.display_off,
            r.kernel.audio == drivers.audio,
            r.kernel.media == Some(drivers.media),
            r.kernel.rpc == drivers.rpc,
            r.kernel.capture == drivers.capture,
            r.kernel.selection_overlay == drivers.selection_overlay,
            r.kernel.settings == drivers.settings,
            r.kernel.display.display_snapshot == drivers.display_snapshot,
            r.pilot_tick == 0,
            r.host == host,
    {
        Orchestrator {
            start_time,
            render_target: None,
            separator_drag: None,
            floating_drag: None,
            status: Status::Running,
            lock_engage: false,
            __set_picker: None,
            status_session: StatusSession::Active,
            worlds,
            kernel: Kernel::new(nested, drivers),
            pilot_tick: 0,
            host,
        }
    }

    /// The camera to look through: inside the per-region render loop, that of the pane being
    /// drawn; else that of the focused slot of the focused world.
    pub fn camera(&self) -> (r: &C)
        requires
            self.has_camera(),
        ensures
            *r == self.camera_cell().camera,
            self.render_target matches Some(rt) ==> (first_match(
                self.worlds.list[self.worlds.spawn_target as int].viewports.in_order(),
                rt.slot,
            ) matches Some(cell) ==> *r == cell.camera),
    {
        let viewports = &self.worlds.list[self.worlds.spawn_target].viewports;
        match &self.render_target {
            Some(rt) => match viewports.camera_of(rt.slot) {
                Some(c) => c,
                None => viewports.focus_camera(),
            },
            None => viewports.focus_camera(),
        }
    }

    /// Mutable form of [`Orchestrator::camera`]: the camera of the first slot identified by
    /// `camera_id`, and nothing else, changes.
    pub fn camera_mut(&mut self) -> (r: &mut C)
        requires
            old(self).has_camera(),
        ensures
            first_match(
                old(self).focused_viewports().in_order(),
                old(self).camera_id(),
            ) matches Some(cell) && cell.camera == *r
                && final(self).focused_viewports().panes() == replace_in_forest(
                old(self).focused_viewports().panes(),
                old(self).camera_id(),
                Cell { camera: *final(r), ..cell },
            ),
            final(self).focused_viewports().same_but_panes(&old(self).focused_viewports()),
            final(self).worlds_with(
                old(self),
                World {
                    viewports: final(self).focused_viewports(),
                    storage: old(self).worlds.focused().storage,
                },
            ),
            final(self).same_but_worlds(old(self)),
    {
        let render_slot: Option<SlotId> = match &self.render_target {
            Some(rt) => Some(rt.slot),
            None => None,
        };
        let target: usize = self.worlds.spawn_target;
        let viewports = &mut self.worlds.list[target].viewports;
        match render_slot {
            Some(id) => {
                if viewports.camera_of(id).is_some() {
                    return viewports.camera_of_mut(id).unwrap();
                }
            },
            None => {},
        }
        viewports.focus_camera_mut()
    }
}

/// The identities of the listed drawables, last first.
pub open spec fn topmost_first<L>(ordered: Seq<(uuid::Uuid, L)>) -> Seq<uuid::Uuid> {
    Seq::new(ordered.len(), |i: int| ordered[ordered.len() - 1 - i].0)
}

impl<C, N, S, H: Drivers> Orchestrator<C, N, S, H> {
    /// Drawable identities in draw order, TOPMOST-FIRST, of the focused world; `ordered` reads
    /// what a world stores of it, which is kept bottom-first with each drawable's layer.
    pub fn drawable_order<L, F: Fn(&S) -> Vec<(uuid::Uuid, L)>>(&self, ordered: F) -> (r: Vec<
        uuid::Uuid,
    >)
        requires
            self.wf(),
            call_requires(ordered, (&self.worlds.focused().storage,)),
        ensures
            exists|kept: Vec<(uuid::Uuid, L)>| #[trigger]
                call_ensures(ordered, (&self.worlds.focused().storage,), kept) && r@
                    == topmost_first(kept@) && r.len() == kept.len() && (forall|i: int|
                    0 <= i < r.len() ==> #[trigger] r[i] == kept[kept.len() - 1 - i].0),
    {
        let kept = ordered(&self.worlds.list[self.worlds.spawn_target].storage);
        let mut ids: Vec<uuid::Uuid> = Vec::new();
        let mut k: usize = kept.len();
        while k > 0
            invariant
                k <= kept.len(),
                ids.len() == kept.len() - k,
                forall|i: int|
                    0 <= i < ids.len() ==> #[trigger] ids[i] == kept[kept.len() - 1 - i].0,
            decreases k,
        {
            k = k - 1;
            ids.push(kept[k].0);
        }
        assert(ids@ =~= topmost_first(kept@));
        ids
    }
}

/// The order is reversed throughout: as many are listed as are kept; what is kept later, and so
/// drawn above, is listed earlier; and the list read backwards is what is kept.
pub proof fn lemma_topmost_first<L>(ordered: Seq<(uuid::Uuid, L)>)
    ensures
        topmost_first(ordered).len() == ordered.len(),
        forall|i: int, j: int|
            0 <= i < ordered.len() && j == ordered.len() - 1 - i ==> #[trigger] topmost_first(
                ordered,
            )[j] == (#[trigger] ordered[i]).0,
        topmost_first(ordered).reverse() == ordered.map_values(|d: (uuid::Uuid, L)| d.0),
{
    assert(topmost_first(ordered).reverse() =~= ordered.map_values(|d: (uuid::Uuid, L)| d.0));
}

/// What is drawn above all others is listed before them: one more on top is one more at the front.
pub proof fn lemma_topmost_leads<L>(ordered: Seq<(uuid::Uuid, L)>, top: (uuid::Uuid, L))
    ensures
        topmost_first(Seq::<(uuid::Uuid, L)>::empty()).len() == 0,
        topmost_first(ordered.push(top)) == seq![top.0] + topmost_first(ordered),
{
    assert(topmost_first(ordered.push(top)) =~= seq![top.0] + topmost_first(ordered));
}

} // verus!
