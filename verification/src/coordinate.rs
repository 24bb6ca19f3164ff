//! Which pane of the focused world the cursor works on, and the drags that rearrange panes.
//!
//! Where the panes lie on the output is the layout's answer and comes in as regions; arithmetic
//! on coordinates is asked of the caller, whose numbers the library only carries.
use vstd::prelude::*;

use crate::geometry::Rect;
use crate::kernel::Drivers;
use crate::orchestrator::{FloatingDrag, Orchestrator, RenderTarget, SeparatorDrag, World};
use crate::viewport::{
    first_match, forest_in_order, replace_in_forest, trees, Axis, Cell, SlotId, Tree, Viewport,
    Viewports,
};

verus! {

/// How near a floating pane's edge the cursor has to be to grab it, in physical pixels.
pub const GRAB_MARGIN: i64 = 24;

/// How narrow a floating pane can be resized, in physical pixels.
pub const MIN_EXTENT: i64 = 100;

/// Where a slot lies on the output.
#[derive(Clone, Copy, PartialEq, Eq, Structural, Debug)]
pub struct Region {
    pub slot: SlotId,
    pub rect: Rect,
}

/// A separator bar between two adjacent split slots.
#[derive(Debug)]
pub struct Separator<N> {
    pub a: SlotId,
    pub b: SlotId,
    pub axis: Axis,
    /// Physical lengths of slots a and b along the axis.
    pub a_len: N,
    pub b_len: N,
}

/// Where the first of the regions of `slot` lies.
pub open spec fn region_of(regions: Seq<Region>, slot: SlotId) -> Option<Rect>
    decreases regions.len(),
{
    if regions.len() == 0 {
        None
    } else if regions[0].slot == slot {
        Some(regions[0].rect)
    } else {
        region_of(regions.drop_first(), slot)
    }
}

/// Finds where `slot` lies.
pub fn find_region(regions: &Vec<Region>, slot: SlotId) -> (r: Option<Rect>)
    ensures
        r == region_of(regions@, slot),
        match r {
            Some(rect) => exists|k: int|
                0 <= k < regions.len() && (#[trigger] regions[k]).slot == slot && rect
                    == regions[k].rect && forall|j: int|
                    0 <= j < k ==> (#[trigger] regions[j]).slot != slot,
            None => forall|k: int| 0 <= k < regions.len() ==> (#[trigger] regions[k]).slot != slot,
        },
{
    let mut i: usize = 0;
    assert(regions@.skip(0) =~= regions@);
    while i < regions.len()
        invariant
            i <= regions.len(),
            region_of(regions@, slot) == region_of(regions@.skip(i as int), slot),
            forall|j: int| 0 <= j < i ==> (#[trigger] regions[j]).slot != slot,
        decreases regions.len() - i,
    {
        assert(regions@.skip(i as int).drop_first() =~= regions@.skip(i + 1));
        if regions[i].slot == slot {
            return Some(regions[i].rect);
        }
        i = i + 1;
    }
    None
}

/// The panes with the weight of the first slot identified by `id`, if there is one, set to
/// `weight`.
pub open spec fn reweighted<C, N>(panes: Seq<Tree<C, N>>, id: SlotId, weight: N) -> Seq<
    Tree<C, N>,
> {
    match first_match(forest_in_order(panes), id) {
        Some(cell) => replace_in_forest(panes, id, Cell { weight, ..cell }),
        None => panes,
    }
}

/// The weight of the first of the listed slots identified by `id`, `one` if there is none.
pub open spec fn weight_or<C, N>(list: Seq<Cell<C, N>>, id: SlotId, one: N) -> N {
    match first_match(list, id) {
        Some(cell) => cell.weight,
        None => one,
    }
}

fn find_weight<C, N: Copy>(v: &Viewports<C, N>, id: SlotId, one: N) -> (r: N)
    ensures
        r == weight_or(v.in_order(), id, one),
{
    match v.slot_of(id) {
        Some(s) => s.weight,
        None => one,
    }
}

fn set_weight<C, N>(v: &mut Viewports<C, N>, id: SlotId, weight: N)
    ensures
        final(v).panes() == reweighted(old(v).panes(), id, weight),
        final(v).same_but_panes(old(v)),
{
    if let Some(s) = v.slot_of_mut(id) {
        s.weight = weight;
    }
}

/// The cursor coordinate that a drag along `axis` follows.
pub open spec fn along<N>(axis: Axis, cursor: (N, N)) -> N {
    match axis {
        Axis::Vertical => cursor.0,
        Axis::Horizontal => cursor.1,
    }
}

impl<C, N, S, H: Drivers> Orchestrator<C, N, S, H> {
    /// Whether a viewport drag (separator / floating move-resize) is in progress.
    pub open spec fn dragging(&self) -> bool {
        self.separator_drag is Some || self.floating_drag is Some
    }

    /// The viewports of the focused world (slots + cameras).
    pub fn viewports(&self) -> (r: &Viewports<C, N>)
        requires
            self.wf(),
        ensures
            *r == self.focused_viewports(),
            *r == self.worlds.list[self.worlds.spawn_target as int].viewports,
    {
        &self.worlds.list[self.worlds.spawn_target].viewports
    }

    /// Mutable form of [`Orchestrator::viewports`].
    pub fn viewports_mut(&mut self) -> (r: &mut Viewports<C, N>)
        requires
            old(self).wf(),
        ensures
            *r == old(self).focused_viewports(),
            *r == old(self).worlds.list[old(self).worlds.spawn_target as int].viewports,
            *final(r) == final(self).worlds.list[final(self).worlds.spawn_target as int].viewports,
            final(self).worlds_with(
                old(self),
                World { viewports: *final(r), storage: old(self).worlds.focused().storage },
            ),
            final(self).same_but_worlds(old(self)),
    {
        let target: usize = self.worlds.spawn_target;
        &mut self.worlds.list[target].viewports
    }

    /// What else the focused world stores.
    pub fn spatial_storage(&self) -> (r: &S)
        requires
            self.wf(),
        ensures
            *r == self.worlds.focused().storage,
            *r == self.worlds.list[self.worlds.spawn_target as int].storage,
    {
        &self.worlds.list[self.worlds.spawn_target].storage
    }

    /// Mutable form of [`Orchestrator::spatial_storage`].
    pub fn spatial_storage_mut(&mut self) -> (r: &mut S)
        requires
            old(self).wf(),
        ensures
            *r == old(self).worlds.focused().storage,
            *r == old(self).worlds.list[old(self).worlds.spawn_target as int].storage,
            *final(r) == final(self).worlds.list[final(self).worlds.spawn_target as int].storage,
            final(self).worlds_with(
                old(self),
                World { viewports: old(self).focused_viewports(), storage: *final(r) },
            ),
            final(self).same_but_worlds(old(self)),
    {
        let target: usize = self.worlds.spawn_target;
        &mut self.worlds.list[target].storage
    }

    /// The pane `slot` as it is projected: where it lies, and the camera it looks through.
    /// `None` if it is not on the output: the projection is then that of the full output.
    pub fn size_ctx_viewport(&self, slot: SlotId, regions: &Vec<Region>) -> (r: Option<(Rect, &C)>)
        requires
            self.wf(),
            region_of(regions@, slot) is Some ==> self.focused_viewports().has_focus(),
        ensures
            match r {
                Some((rect, camera)) => region_of(regions@, slot) == Some(rect) && *camera
                    == match first_match(self.focused_viewports().in_order(), slot) {
                    Some(cell) => cell.camera,
                    None => self.focused_viewports().focus_cell().camera,
                },
                None => region_of(regions@, slot) is None,
            },
            r is Some <==> exists|k: int|
                0 <= k < regions.len() && (#[trigger] regions[k]).slot == slot,
            forall|k: int|
                0 <= k < regions.len() && (#[trigger] regions[k]).slot == slot && (forall|j: int|
                    0 <= j < k ==> (#[trigger] regions[j]).slot != slot) ==> (r matches Some(
                    (rect, _),
                ) && rect == regions[k].rect),
    {
        let viewports = self.viewports();
        match find_region(regions, slot) {
            Some(rect) => {
                let camera = match viewports.camera_of(slot) {
                    Some(c) => c,
                    None => viewports.focus_camera(),
                };
                Some((rect, camera))
            },
            None => None,
        }
    }

    /// The region being drawn and the camera it is drawn through. `None` outside the
    /// per-region render loop: the projection is then that of the full output.
    pub fn viewport_context(&self) -> (r: Option<(&RenderTarget<N>, &C)>)
        requires
            self.render_target is Some ==> self.has_camera(),
        ensures
            match r {
                Some((target, camera)) => self.render_target == Some(*target) && *camera
                    == self.camera_cell().camera,
                None => self.render_target is None,
            },
    {
        match &self.render_target {
            Some(rt) => Some((rt, self.camera())),
            None => None,
        }
    }

    /// The pane that pointer input works on as it is projected: where it lies (all of `bounds`
    /// if it is not on the output), and the camera.
    pub fn focus_pane_context(&self, bounds: Rect, regions: &Vec<Region>) -> (r: (Rect, &C))
        requires
            self.has_camera(),
        ensures
            r.0 == match region_of(regions@, self.focused_viewports().pointer) {
                Some(rect) => rect,
                None => bounds,
            },
            *r.1 == self.camera_cell().camera,
            ({
                let current = self.worlds.list[self.worlds.spawn_target as int].viewports.pointer;
                &&& forall|k: int|
                    0 <= k < regions.len() && (#[trigger] regions[k]).slot == current && (forall|
                        j: int,
                    |
                        0 <= j < k ==> (#[trigger] regions[j]).slot != current) ==> r.0
                        == regions[k].rect
                &&& (forall|k: int|
                    0 <= k < regions.len() ==> (#[trigger] regions[k]).slot != current) ==> r.0
                    == bounds
            }),
    {
        let pointer: SlotId = self.viewports().pointer;
        let rect = match find_region(regions, pointer) {
            Some(rect) => rect,
            None => bounds,
        };
        (rect, self.camera())
    }

    /// The pane that the cursor is taken to be over: during a drag, and over a separator or a
    /// gap, the one it was over; else the pane `hit` under it.
    pub open spec fn pointed_pane(
        &self,
        bounds: Rect,
        regions: Seq<Region>,
        hit: Option<(SlotId, Rect)>,
    ) -> (SlotId, Rect) {
        if !self.dragging() && hit is Some {
            hit.unwrap()
        } else {
            let current = self.focused_viewports().pointer;
            (
                current,
                match region_of(regions, current) {
                    Some(rect) => rect,
                    None => bounds,
                },
            )
        }
    }

    /// Records the pane that the cursor is over as the one pointer input works on, and gives it
    /// as it is projected: where it lies, and the camera. `hit` is the leaf pane under the
    /// cursor, if any.
    pub fn pointer_context(
        &mut self,
        bounds: Rect,
        regions: &Vec<Region>,
        hit: Option<(SlotId, Rect)>,
    ) -> (r: (Rect, &C))
        requires
            old(self).wf(),
            old(self).drawn_cell() is Some || old(self).focused_viewports().root@.has_leaf()
                || first_match(
                old(self).focused_viewports().in_order(),
                old(self).pointed_pane(bounds, regions@, hit).0,
            ) is Some,
        ensures
            r.0 == old(self).pointed_pane(bounds, regions@, hit).1,
            *r.1 == final(self).camera_cell().camera,
            final(self).has_camera(),
            final(self).focused_viewports() == (Viewports {
                pointer: old(self).pointed_pane(bounds, regions@, hit).0,
                ..old(self).focused_viewports()
            }),
            final(self).worlds_with(
                old(self),
                World {
                    viewports: final(self).focused_viewports(),
                    storage: old(self).worlds.focused().storage,
                },
            ),
            final(self).same_but_worlds(old(self)),
            old(self).dragging() ==> final(self).focused_viewports().pointer
                == old(self).focused_viewports().pointer,
            old(self).separator_drag is None && old(self).floating_drag is None ==> (
            hit matches Some((slot, rect)) ==> r.0 == rect && slot
                == final(self).worlds.list[final(self).worlds.spawn_target as int].viewports.pointer),
            old(self).separator_drag is Some || old(self).floating_drag is Some || hit is None ==> {
                let was = old(self).worlds.list[old(self).worlds.spawn_target as int];
                let now = final(self).worlds.list[final(self).worlds.spawn_target as int];
                let current = was.viewports.pointer;
                &&& now.viewports.pointer == current
                &&& forall|k: int|
                    0 <= k < regions.len() && (#[trigger] regions[k]).slot == current && (forall|
                        j: int,
                    |
                        0 <= j < k ==> (#[trigger] regions[j]).slot != current) ==> r.0
                        == regions[k].rect
                &&& (forall|k: int|
                    0 <= k < regions.len() ==> (#[trigger] regions[k]).slot != current) ==> r.0
                    == bounds
            },
    {
        let dragging = self.separator_drag.is_some() || self.floating_drag.is_some();
        let current: SlotId = self.viewports().pointer;
        let (slot, rect) = match hit {
            Some(found) if !dragging => found,
            _ => match find_region(regions, current) {
                Some(rect) => (current, rect),
                None => (current, bounds),
            },
        };
        self.viewports_mut().pointer = slot;
        (rect, self.camera())
    }
}

impl<C, N: Copy, S, H: Drivers> Orchestrator<C, N, S, H> {
    /// Whether everything but the separator drag is the same.
    pub open spec fn same_but_separator_drag(&self, other: &Self) -> bool {
        &&& self.worlds == other.worlds
        &&& self.render_target == other.render_target
        &&& self.floating_drag == other.floating_drag
        &&& self.same_but_worlds_and_drags(other)
    }

    /// Whether everything but the floating drag is the same.
    pub open spec fn same_but_floating_drag(&self, other: &Self) -> bool {
        &&& self.worlds == other.worlds
        &&& self.render_target == other.render_target
        &&& self.separator_drag == other.separator_drag
        &&& self.same_but_worlds_and_drags(other)
    }

    /// If the cursor is over a separator bar (`hit`), begins a separator drag and returns true
    /// (the caller should consume the press). Else false. A slot that is in no pane weighs `one`;
    /// `plus` adds the two weights.
    pub fn try_begin_separator_drag<F: Fn(N, N) -> N>(
        &mut self,
        hit: Option<Separator<N>>,
        cursor: (N, N),
        one: N,
        plus: F,
    ) -> (r: bool)
        requires
            old(self).wf(),
            forall|a: N, b: N| call_requires(plus, (a, b)),
        ensures
            r == hit is Some,
            match hit {
                Some(sep) => final(self).separator_drag matches Some(d) && d.a == sep.a && d.b
                    == sep.b && d.axis == sep.axis && d.start_along == along(sep.axis, cursor)
                    && d.a_len == sep.a_len && d.b_len == sep.b_len && call_ensures(
                    plus,
                    (
                        weight_or(old(self).focused_viewports().in_order(), sep.a, one),
                        weight_or(old(self).focused_viewports().in_order(), sep.b, one),
                    ),
                    d.sum_weight,
                ),
                None => final(self).separator_drag == old(self).separator_drag,
            },
            hit matches Some(sep) ==> (final(self).separator_drag matches Some(d) && {
                &&& (d.a, d.b, d.axis) == (sep.a, sep.b, sep.axis)
                &&& (d.a_len, d.b_len) == (sep.a_len, sep.b_len)
                &&& sep.axis == Axis::Vertical ==> d.start_along == cursor.0
                &&& sep.axis == Axis::Horizontal ==> d.start_along == cursor.1
            }),
            final(self).same_but_separator_drag(old(self)),
    {
        match hit {
            Some(sep) => {
                let start_along = match sep.axis {
                    Axis::Vertical => cursor.0,
                    Axis::Horizontal => cursor.1,
                };
                let viewports = self.viewports();
                let sum_weight = plus(
                    find_weight(viewports, sep.a, one),
                    find_weight(viewports, sep.b, one),
                );
                self.separator_drag = Some(
                    SeparatorDrag {
                        a: sep.a,
                        b: sep.b,
                        axis: sep.axis,
                        start_along,
                        a_len: sep.a_len,
                        b_len: sep.b_len,
                        sum_weight,
                    },
                );
                true
            },
            None => false,
        }
    }

    /// While a separator drag is active, redistributes the two slots' weights, in whichever pane
    /// they are, and returns true (consume the motion). Else false. `split` gives, for the drag
    /// and the cursor coordinate that it follows, the two weights; `None` where there is nothing
    /// to divide.
    pub fn update_separator_drag<F: Fn(&SeparatorDrag<N>, N) -> Option<(N, N)>>(
        &mut self,
        cursor: (N, N),
        split: F,
    ) -> (r: bool)
        requires
            old(self).wf(),
            forall|d: &SeparatorDrag<N>, at: N| call_requires(split, (d, at)),
        ensures
            r == old(self).separator_drag is Some,
            match old(self).separator_drag {
                Some(d) => exists|weights: Option<(N, N)>| #[trigger]
                    call_ensures(split, (&d, along(d.axis, cursor)), weights) && match weights {
                        Some((a, b)) => final(self).focused_viewports().panes() == reweighted(
                            reweighted(old(self).focused_viewports().panes(), d.a, a),
                            d.b,
                            b,
                        ),
                        None => final(self).focused_viewports() == old(self).focused_viewports(),
                    },
                None => final(self).focused_viewports() == old(self).focused_viewports(),
            },
            final(self).focused_viewports().same_but_panes(&old(self).focused_viewports()),
            final(self).worlds_with(
                old(self),
                World {
                    viewports: final(self).focused_viewports(),
                    storage: old(self).worlds.focused().storage,
                },
            ),
            final(self).same_but_worlds(old(self)),
    {
        let (a, b, weights) = match &self.separator_drag {
            Some(d) => {
                let at = match d.axis {
                    Axis::Vertical => cursor.0,
                    Axis::Horizontal => cursor.1,
                };
                (d.a, d.b, split(d, at))
            },
            None => {
                assert(self.worlds.list@ =~= self.worlds.list@.update(
                    self.worlds.spawn_target as int,
                    self.worlds.focused(),
                ));
                return false;
            },
        };
        match weights {
            Some((weight_a, weight_b)) => {
                let viewports = self.viewports_mut();
                set_weight(viewports, a, weight_a);
                set_weight(viewports, b, weight_b);
            },
            None => {
                assert(self.worlds.list@ =~= self.worlds.list@.update(
                    self.worlds.spawn_target as int,
                    self.worlds.focused(),
                ));
            },
        }
        true
    }

    /// Ends any in-progress separator drag.
    pub fn end_separator_drag(&mut self)
        ensures
            final(self).separator_drag is None,
            final(self).same_but_separator_drag(old(self)),
    {
        self.separator_drag = None;
    }
}

/// What was measured on one axis of a pane: `None` if the cursor is not within reach of it,
/// else whether it is near the low edge and near the high edge.
pub type Nearness = Option<(bool, bool)>;

/// Whether the cursor grips the pane: within reach of it on both axes, and near an edge.
pub open spec fn grips<C, N>(pane: Viewport<C, N>, x: Nearness, y: Nearness) -> bool {
    match (pane, x, y) {
        (Viewport::Floating { .. }, Some((l, r)), Some((t, b))) => l || r || t || b,
        _ => false,
    }
}

/// Whether `xs` and `ys` are what `near` may give for the horizontal and the vertical edges of
/// each floating pane from position `low` on.
pub open spec fn near_measured<C, N, F: Fn(N, i64, i64, i64) -> Nearness>(
    panes: Seq<Viewport<C, N>>,
    cursor: (N, N),
    near: F,
    low: int,
    xs: Seq<Nearness>,
    ys: Seq<Nearness>,
) -> bool {
    &&& xs.len() == panes.len()
    &&& ys.len() == panes.len()
    &&& forall|i: int|
        #![trigger xs[i]]
        #![trigger ys[i]]
        low <= i < panes.len() ==> (panes[i] matches Viewport::Floating { rect, .. }
            ==> call_ensures(
            near,
            (cursor.0, rect.x as i64, (rect.x + rect.w) as i64, GRAB_MARGIN),
            xs[i],
        ) && call_ensures(
            near,
            (cursor.1, rect.y as i64, (rect.y + rect.h) as i64, GRAB_MARGIN),
            ys[i],
        ))
}

/// Whether no distance that `shift` may give moves the pane beyond what a position can be.
pub open spec fn shifts_fit<N, F: Fn(N, N) -> i32>(
    cursor: (N, N),
    d: FloatingDrag<N>,
    shift: F,
) -> bool {
    &&& forall|dx: i32| #[trigger]
        call_ensures(shift, (cursor.0, d.start_cursor.0), dx) ==> i32::MIN <= d.start_rect.x + dx
            <= i32::MAX
    &&& forall|dy: i32| #[trigger]
        call_ensures(shift, (cursor.1, d.start_cursor.1), dy) ==> i32::MIN <= d.start_rect.y + dy
            <= i32::MAX
}

/// Whether `rect` is where the floating drag `d` may put its pane: resized edge by edge, or
/// moved as it is.
pub open spec fn placed<
    N,
    F: Fn(N, N) -> i32,
    G: Fn(i32, i32, bool, bool, N, N, i64) -> (i32, i32),
>(cursor: (N, N), d: FloatingDrag<N>, shift: F, stretch: G, rect: Rect) -> bool {
    let start = d.start_rect;
    if d.resize {
        &&& call_ensures(
            stretch,
            (start.x, start.w, d.left, d.right, cursor.0, d.start_cursor.0, MIN_EXTENT),
            (rect.x, rect.w),
        )
        &&& call_ensures(
            stretch,
            (start.y, start.h, d.top, d.bottom, cursor.1, d.start_cursor.1, MIN_EXTENT),
            (rect.y, rect.h),
        )
    } else {
        &&& call_ensures(shift, (cursor.0, d.start_cursor.0), (rect.x - start.x) as i32)
        &&& call_ensures(shift, (cursor.1, d.start_cursor.1), (rect.y - start.y) as i32)
        &&& i32::MIN <= rect.x - start.x <= i32::MAX
        &&& i32::MIN <= rect.y - start.y <= i32::MAX
        &&& rect.w == start.w
        &&& rect.h == start.h
    }
}

impl<C, N: Copy, S, H: Drivers> Orchestrator<C, N, S, H> {
    /// If the cursor is near a floating pane's edge, begins a move (`resize` = false) or resize
    /// (`resize` = true) drag of the topmost such pane and returns true (consume). Else false.
    /// The pane interior is left for window interaction. `near` takes a cursor coordinate, a
    /// pane's low and high edge on that axis, and a margin.
    pub fn try_begin_floating_drag<F: Fn(N, i64, i64, i64) -> Nearness>(
        &mut self,
        cursor: (N, N),
        resize: bool,
        near: F,
    ) -> (r: bool)
        requires
            old(self).wf(),
            forall|at: N, low: i64, high: i64, margin: i64| #[trigger]
                call_requires(near, (at, low, high, margin)),
        ensures
            ({
                let panes = old(self).focused_viewports().floating@;
                exists|low: int, xs: Seq<Nearness>, ys: Seq<Nearness>| #[trigger]
                    near_measured(panes, cursor, near, low, xs, ys) && if r {
                        &&& 0 <= low < panes.len()
                        &&& grips(panes[low], xs[low], ys[low])
                        &&& forall|j: int|
                            low < j < panes.len() ==> !grips(#[trigger] panes[j], xs[j], ys[j])
                        &&& final(self).floating_drag == Some(
                            FloatingDrag {
                                index: low as usize,
                                resize,
                                left: xs[low].unwrap().0,
                                top: ys[low].unwrap().0,
                                right: xs[low].unwrap().1,
                                bottom: ys[low].unwrap().1,
                                start_cursor: cursor,
                                start_rect: panes[low]->rect,
                            },
                        )
                    } else {
                        &&& low == 0
                        &&& forall|j: int|
                            0 <= j < panes.len() ==> !grips(#[trigger] panes[j], xs[j], ys[j])
                        &&& final(self).floating_drag == old(self).floating_drag
                    }
            }),
            ({
                let world = old(self).worlds.list[old(self).worlds.spawn_target as int];
                let panes = world.viewports.floating@;
                let from = if r {
                    final(self).floating_drag.unwrap().index + 1
                } else {
                    0
                };
                &&& r ==> (final(self).floating_drag matches Some(d) && {
                    &&& d.index < panes.len()
                    &&& d.resize == resize
                    &&& d.start_cursor == cursor
                    &&& d.left || d.top || d.right || d.bottom
                    &&& panes[d.index as int] matches Viewport::Floating { rect, .. } && d.start_rect
                        == rect && call_ensures(
                        near,
                        (cursor.0, rect.x as i64, (rect.x + rect.w) as i64, 24i64),
                        Some((d.left, d.right)),
                    ) && call_ensures(
                        near,
                        (cursor.1, rect.y as i64, (rect.y + rect.h) as i64, 24i64),
                        Some((d.top, d.bottom)),
                    )
                })
                &&& !r ==> final(self).floating_drag == old(self).floating_drag
                &&& forall|j: int|
                    from <= j < panes.len() ==> ((#[trigger] panes[j]) matches Viewport::Floating {
                        rect,
                        ..
                    } ==> exists|x: Nearness, y: Nearness| #[trigger]
                        call_ensures(
                            near,
                            (cursor.0, rect.x as i64, (rect.x + rect.w) as i64, 24i64),
                            x,
                        ) && #[trigger] call_ensures(
                            near,
                            (cursor.1, rect.y as i64, (rect.y + rect.h) as i64, 24i64),
                            y,
                        ) && (x is None || y is None || (x == Some((false, false)) && y == Some(
                            (false, false),
                        ))))
            }),
            final(self).same_but_floating_drag(old(self)),
    {
        let n: usize = self.viewports().floating.len();
        let ghost panes = self.focused_viewports().floating@;
        let ghost mut xs: Seq<Nearness> = Seq::new(n as nat, |i: int| None);
        let ghost mut ys: Seq<Nearness> = Seq::new(n as nat, |i: int| None);
        let mut k: usize = n;
        while k > 0
            invariant
                *self == *old(self),
                self.wf(),
                panes == self.focused_viewports().floating@,
                n == panes.len(),
                k <= n,
                forall|at: N, low: i64, high: i64, margin: i64| #[trigger]
                    call_requires(near, (at, low, high, margin)),
                near_measured(panes, cursor, near, k as int, xs, ys),
                forall|j: int| k <= j < n ==> !grips(#[trigger] panes[j], xs[j], ys[j]),
            decreases k,
        {
            k = k - 1;
            let ghost (xs0, ys0) = (xs, ys);
            let hit: Option<FloatingDrag<N>> = match &self.viewports().floating[k] {
                Viewport::Floating { rect, .. } => {
                    let x = near(
                        cursor.0,
                        rect.x as i64,
                        rect.x as i64 + rect.w as i64,
                        GRAB_MARGIN,
                    );
                    let y = near(
                        cursor.1,
                        rect.y as i64,
                        rect.y as i64 + rect.h as i64,
                        GRAB_MARGIN,
                    );
                    proof {
                        xs = xs.update(k as int, x);
                        ys = ys.update(k as int, y);
                    }
                    match (x, y) {
                        (Some((left, right)), Some((top, bottom))) => if left || right || top
                            || bottom {
                            Some(
                                FloatingDrag {
                                    index: k,
                                    resize,
                                    left,
                                    top,
                                    right,
                                    bottom,
                                    start_cursor: cursor,
                                    start_rect: *rect,
                                },
                            )
                        } else {
                            None
                        },
                        _ => None,
                    }
                },
                Viewport::Slots { .. } => None,
            };
            proof {
                assert forall|i: int| k < i < n implies #[trigger] xs[i] == xs0[i] && ys[i]
                    == ys0[i] by {}
                assert(near_measured(panes, cursor, near, k as int, xs, ys));
            }
            if let Some(d) = hit {
                self.floating_drag = Some(d);
                return true;
            }
        }
        false
    }

    /// The inner viewport of the pane that the floating drag `d` holds; `None` if it is gone.
    pub open spec fn held_pane(&self, d: FloatingDrag<N>) -> Option<Box<Viewport<C, N>>> {
        let panes = self.focused_viewports().floating@;
        if d.index < panes.len() {
            match panes[d.index as int] {
                Viewport::Floating { inner, .. } => Some(inner),
                Viewport::Slots { .. } => None,
            }
        } else {
            None
        }
    }

    /// While a floating drag is active, moves/resizes the pane and returns true (consume). Else
    /// false. `shift` takes a cursor coordinate now and at drag start and gives the distance in
    /// whole pixels. `stretch` takes a pane's position and extent on one axis at drag start,
    /// whether its low and its high edge move, the cursor coordinate now and at drag start, and
    /// the least extent, and gives the position and extent.
    pub fn update_floating_drag<
        F: Fn(N, N) -> i32,
        G: Fn(i32, i32, bool, bool, N, N, i64) -> (i32, i32),
    >(&mut self, cursor: (N, N), shift: F, stretch: G) -> (r: bool)
        requires
            old(self).wf(),
            forall|now: N, start: N| call_requires(shift, (now, start)),
            forall|at: i32, len: i32, low: bool, high: bool, now: N, start: N, min: i64| #[trigger]
                call_requires(stretch, (at, len, low, high, now, start, min)),
            old(self).floating_drag matches Some(d) ==> (old(self).held_pane(d) is Some && !d.resize
                ==> shifts_fit(cursor, d, shift)),
        ensures
            r == old(self).floating_drag is Some,
            match old(self).floating_drag {
                Some(d) => match old(self).held_pane(d) {
                    Some(inner) => exists|rect: Rect| #[trigger]
                        placed(cursor, d, shift, stretch, rect) && trees(
                            final(self).focused_viewports().floating@,
                        ) == trees(old(self).focused_viewports().floating@).update(
                            d.index as int,
                            Tree::Floating { rect, inner: Box::new(inner@) },
                        ),
                    None => final(self).focused_viewports().floating == old(
                        self,
                    ).focused_viewports().floating,
                },
                None => final(self).focused_viewports().floating == old(
                    self,
                ).focused_viewports().floating,
            },
            ({
                let was = old(self).worlds.list[old(self).worlds.spawn_target as int];
                let now = final(self).worlds.list[final(self).worlds.spawn_target as int];
                let before = was.viewports.floating@;
                let after = now.viewports.floating@;
                match old(self).floating_drag {
                    Some(d) => if d.index < before.len() && before[d.index as int] is Floating {
                        let start = d.start_rect;
                        let rect = after[d.index as int]->rect;
                        &&& after.len() == before.len()
                        &&& forall|i: int|
                            0 <= i < before.len() && i != d.index ==> #[trigger] after[i] == before[i]
                        &&& after[d.index as int] is Floating
                        &&& after[d.index as int]->inner == before[d.index as int]->inner
                        &&& d.resize ==> call_ensures(
                            stretch,
                            (start.x, start.w, d.left, d.right, cursor.0, d.start_cursor.0, 100i64),
                            (rect.x, rect.w),
                        ) && call_ensures(
                            stretch,
                            (start.y, start.h, d.top, d.bottom, cursor.1, d.start_cursor.1, 100i64),
                            (rect.y, rect.h),
                        )
                        &&& !d.resize ==> {
                            &&& (rect.w, rect.h) == (start.w, start.h)
                            &&& exists|dx: i32| #[trigger]
                                call_ensures(shift, (cursor.0, d.start_cursor.0), dx) && rect.x
                                    == start.x + dx
                            &&& exists|dy: i32| #[trigger]
                                call_ensures(shift, (cursor.1, d.start_cursor.1), dy) && rect.y
                                    == start.y + dy
                        }
                    } else {
                        after == before
                    },
                    None => after == before,
                }
            }),
            final(self).focused_viewports() == (Viewports {
                floating: final(self).focused_viewports().floating,
                ..old(self).focused_viewports()
            }),
            final(self).worlds_with(
                old(self),
                World {
                    viewports: final(self).focused_viewports(),
                    storage: old(self).worlds.focused().storage,
                },
            ),
            final(self).same_but_worlds(old(self)),
    {
        proof {
            assert(self.worlds.list@ =~= self.worlds.list@.update(
                self.worlds.spawn_target as int,
                self.worlds.focused(),
            ));
        }
        let (index, held) = match &self.floating_drag {
            Some(d) => {
                let panes = &self.viewports().floating;
                let held = d.index < panes.len() && match &panes[d.index] {
                    Viewport::Floating { .. } => true,
                    Viewport::Slots { .. } => false,
                };
                (d.index, held)
            },
            None => {
                return false;
            },
        };
        if !held {
            return true;
        }
        let rect = match &self.floating_drag {
            Some(d) => {
                let start = &d.start_rect;
                if d.resize {
                    let (x, w) = stretch(
                        start.x,
                        start.w,
                        d.left,
                        d.right,
                        cursor.0,
                        d.start_cursor.0,
                        MIN_EXTENT,
                    );
                    let (y, h) = stretch(
                        start.y,
                        start.h,
                        d.top,
                        d.bottom,
                        cursor.1,
                        d.start_cursor.1,
                        MIN_EXTENT,
                    );
                    Rect { x, y, w, h }
                } else {
                    let dx: i32 = shift(cursor.0, d.start_cursor.0);
                    let dy: i32 = shift(cursor.1, d.start_cursor.1);
                    Rect { x: start.x + dx, y: start.y + dy, w: start.w, h: start.h }
                }
            },
            None => {
                return false;
            },
        };
        assert(placed(cursor, self.floating_drag.unwrap(), shift, stretch, rect));
        let ghost before = self.focused_viewports().floating@;
        let viewports = self.viewports_mut();
        match &mut viewports.floating[index] {
            Viewport::Floating { rect: place, .. } => {
                *place = rect;
            },
            Viewport::Slots { .. } => {},
        }
        proof {
            let now = self.focused_viewports().floating@;
            let inner = before[index as int]->inner;
            assert(trees(now) =~= trees(before).update(
                index as int,
                Tree::Floating { rect, inner: Box::new(inner@) },
            ));
        }
        true
    }

    /// Ends any in-progress floating drag.
    pub fn end_floating_drag(&mut self)
        ensures
            final(self).floating_drag is None,
            final(self).same_but_floating_drag(old(self)),
    {
        self.floating_drag = None;
    }
}

} // verus!
