//! What holds of the focus and of the drags across their operations.
use vstd::prelude::*;

use crate::coordinate::{
    along, grips, near_measured, placed, region_of, reweighted, shifts_fit, weight_or, Nearness,
    Region, MIN_EXTENT,
};
use crate::geometry::Rect;
use crate::kernel::Drivers;
use crate::orchestrator::{FloatingDrag, Orchestrator, World};
use crate::viewport::{
    first_match, forest_in_order, replace_in_forest, Axis, Cell, SlotId, Tree, Viewport,
};
use crate::viewport_laws::{
    focus_unshadowed, labels, lemma_first_match_is_first, lemma_focus, lemma_focus_agrees,
    lemma_forest_replace, lemma_match_index_by_labels, match_index,
};

verus! {

/// The camera that is read and the camera that is written are those of one slot, exactly unless,
/// outside the render loop, the slot that pointer input falls back to is shadowed.
pub proof fn lemma_camera_agrees<C, N, S, H: Drivers>(o: &Orchestrator<C, N, S, H>)
    requires
        o.has_camera(),
    ensures
        first_match(o.focused_viewports().in_order(), o.camera_id()) == Some(o.camera_cell())
            <==> (o.drawn_cell() is Some || focus_unshadowed(&o.focused_viewports())),
{
    if o.drawn_cell() is None {
        lemma_focus_agrees(&o.focused_viewports());
    }
}

/// Inside the render loop the camera is that of the pane being drawn, wherever the pane is one
/// of the focused world's; outside it is that of the pane under the cursor, wherever that is.
pub proof fn lemma_camera_follows<C, N, S, H: Drivers>(o: &Orchestrator<C, N, S, H>)
    requires
        o.has_camera(),
    ensures
        o.drawn_cell() is Some ==> o.camera_cell().id == o.render_target.unwrap().slot,
        o.render_target is None && first_match(
            o.focused_viewports().in_order(),
            o.focused_viewports().pointer,
        ) is Some ==> o.camera_cell().id == o.focused_viewports().pointer,
{
    let list = o.focused_viewports().in_order();
    lemma_first_match_is_first(list, o.focused_viewports().pointer);
    if o.render_target is Some {
        lemma_first_match_is_first(list, o.render_target.unwrap().slot);
    }
}

/// Setting a slot's weight changes no other slot's, in any pane, and no camera.
pub proof fn lemma_reweighted<C, N>(
    panes: Seq<Tree<C, N>>,
    id: SlotId,
    weight: N,
    other: SlotId,
)
    ensures
        match first_match(forest_in_order(reweighted(panes, id, weight)), other) {
            Some(c) => first_match(forest_in_order(panes), other) matches Some(b) && c.camera
                == b.camera && c.weight == if other == id {
                weight
            } else {
                b.weight
            },
            None => first_match(forest_in_order(panes), other) is None,
        },
{
    let b = forest_in_order(panes);
    if first_match(b, id) is Some {
        let cell = first_match(b, id).unwrap();
        let new = Cell { weight, ..cell };
        let a = forest_in_order(replace_in_forest(panes, id, new));
        lemma_forest_replace(panes, id, new);
        lemma_first_match_is_first(b, id);
        assert(a.len() == labels(a).len() && b.len() == labels(b).len());
        assert forall|i: int| 0 <= i < a.len() implies (#[trigger] a[i]).id == (
        #[trigger] b[i]).id by {
            assert(labels(a)[i] == a[i].label());
            assert(labels(b)[i] == b[i].label());
        }
        lemma_match_index_by_labels(a, b, other);
        lemma_first_match_is_first(a, other);
        lemma_first_match_is_first(b, other);
        let m = match_index(b, other);
        if m < b.len() {
            assert(labels(a)[m] == a[m].label());
            assert(labels(b)[m] == b[m].label());
        }
    }
}

/// Dividing two slots' weights anew, in whichever pane they are, gives each its share and leaves
/// every other slot, and every camera, as it was.
pub proof fn lemma_divided<C, N>(
    panes: Seq<Tree<C, N>>,
    a: SlotId,
    weight_a: N,
    b: SlotId,
    weight_b: N,
    other: SlotId,
)
    requires
        a != b,
    ensures
        ({
            let divided = reweighted(reweighted(panes, a, weight_a), b, weight_b);
            match first_match(forest_in_order(divided), other) {
                Some(c) => first_match(forest_in_order(panes), other) matches Some(was)
                    && c.camera == was.camera && c.weight == if other == a {
                    weight_a
                } else if other == b {
                    weight_b
                } else {
                    was.weight
                },
                None => first_match(forest_in_order(panes), other) is None,
            }
        }),
{
    lemma_reweighted(panes, a, weight_a, other);
    lemma_reweighted(reweighted(panes, a, weight_a), b, weight_b, other);
}

/// A move follows the cursor from where the drag began, whatever lay between: back there, the
/// pane is back too; and wherever it is, its extent is what it was.
pub proof fn lemma_move_returns<
    N,
    F: Fn(N, N) -> i32,
    G: Fn(i32, i32, bool, bool, N, N, i64) -> (i32, i32),
>(cursor: (N, N), d: FloatingDrag<N>, shift: F, stretch: G, rect: Rect)
    requires
        !d.resize,
        placed(cursor, d, shift, stretch, rect),
        forall|at: N, by: i32| #[trigger] call_ensures(shift, (at, at), by) ==> by == 0,
    ensures
        (rect.w, rect.h) == (d.start_rect.w, d.start_rect.h),
        cursor == d.start_cursor ==> rect == d.start_rect,
{
}

/// A resize with an arithmetic that leaves alone the sides that are not to move, and keeps the
/// least extent of an axis on which one does, does so of the pane.
pub proof fn lemma_resize_keeps<
    N,
    F: Fn(N, N) -> i32,
    G: Fn(i32, i32, bool, bool, N, N, i64) -> (i32, i32),
>(cursor: (N, N), d: FloatingDrag<N>, shift: F, stretch: G, rect: Rect)
    requires
        d.resize,
        placed(cursor, d, shift, stretch, rect),
        forall|
            at: i32,
            len: i32,
            low: bool,
            high: bool,
            now: N,
            start: N,
            min: i64,
            r: (i32, i32),
        | #[trigger]
            call_ensures(stretch, (at, len, low, high, now, start, min), r) ==> {
                &&& !low ==> r.0 == at
                &&& !high ==> r.0 + r.1 == at + len
                &&& low || high ==> r.1 >= min
            },
    ensures
        !d.left ==> rect.x == d.start_rect.x,
        !d.right ==> rect.x + rect.w == d.start_rect.x + d.start_rect.w,
        !d.top ==> rect.y == d.start_rect.y,
        !d.bottom ==> rect.y + rect.h == d.start_rect.y + d.start_rect.h,
        d.left || d.right ==> rect.w >= MIN_EXTENT,
        d.top || d.bottom ==> rect.h >= MIN_EXTENT,
{
}

/// A moved pane follows the cursor: each coordinate is displaced as the cursor's is since the drag
/// began, by an arithmetic that gives that displacement; the extent stays.
pub proof fn lemma_move_follows<
    N,
    F: Fn(N, N) -> i32,
    G: Fn(i32, i32, bool, bool, N, N, i64) -> (i32, i32),
>(
    cursor: (N, N),
    d: FloatingDrag<N>,
    shift: F,
    stretch: G,
    rect: Rect,
    displacement: spec_fn(N, N) -> int,
)
    requires
        !d.resize,
        placed(cursor, d, shift, stretch, rect),
        forall|now: N, start: N, by: i32| #[trigger]
            call_ensures(shift, (now, start), by) ==> by == displacement(now, start),
    ensures
        rect.x == d.start_rect.x + displacement(cursor.0, d.start_cursor.0),
        rect.y == d.start_rect.y + displacement(cursor.1, d.start_cursor.1),
        rect.w == d.start_rect.w,
        rect.h == d.start_rect.h,
{
}

/// A resized edge follows the cursor: an edge that is gripped is displaced as the cursor is since
/// the drag began, down to the least extent, and one that is not gripped stays; whichever edges
/// are gripped, by an arithmetic that displaces an edge so.
pub proof fn lemma_resize_follows<
    N,
    F: Fn(N, N) -> i32,
    G: Fn(i32, i32, bool, bool, N, N, i64) -> (i32, i32),
>(
    cursor: (N, N),
    d: FloatingDrag<N>,
    shift: F,
    stretch: G,
    rect: Rect,
    displacement: spec_fn(N, N) -> int,
)
    requires
        d.resize,
        placed(cursor, d, shift, stretch, rect),
        forall|
            at: i32,
            len: i32,
            low: bool,
            high: bool,
            now: N,
            start: N,
            min: i64,
            r: (i32, i32),
        | #[trigger]
            call_ensures(stretch, (at, len, low, high, now, start, min), r) ==> {
                let by = displacement(now, start);
                &&& r.0 == if !low {
                    at as int
                } else if at + by <= at + len - min {
                    at + by
                } else {
                    at + len - min
                }
                &&& r.0 + r.1 == if !high {
                    at + len
                } else if at + len + by >= r.0 + min {
                    at + len + by
                } else {
                    r.0 + min
                }
            },
    ensures
        ({
            let start = d.start_rect;
            let dx = displacement(cursor.0, d.start_cursor.0);
            let dy = displacement(cursor.1, d.start_cursor.1);
            &&& d.left ==> rect.x == if dx <= start.w - 100 {
                start.x + dx
            } else {
                start.x + start.w - 100
            }
            &&& d.top ==> rect.y == if dy <= start.h - 100 {
                start.y + dy
            } else {
                start.y + start.h - 100
            }
            &&& d.right ==> rect.x + rect.w == if start.x + start.w + dx >= rect.x + 100 {
                start.x + start.w + dx
            } else {
                rect.x + 100
            }
            &&& d.bottom ==> rect.y + rect.h == if start.y + start.h + dy >= rect.y + 100 {
                start.y + start.h + dy
            } else {
                rect.y + 100
            }
            &&& !d.left ==> rect.x == start.x
            &&& !d.top ==> rect.y == start.y
            &&& !d.right ==> rect.x + rect.w == start.x + start.w
            &&& !d.bottom ==> rect.y + rect.h == start.y + start.h
        }),
{
}

/// What a drag asks of the arithmetic and takes from it: for a resize, each axis by itself, with
/// the pane's position and extent at drag start, the gripped edges, the cursor now and then, and
/// the least extent; for a move, each coordinate now and then.
pub proof fn lemma_placed_by<
    N,
    F: Fn(N, N) -> i32,
    G: Fn(i32, i32, bool, bool, N, N, i64) -> (i32, i32),
>(cursor: (N, N), d: FloatingDrag<N>, shift: F, stretch: G, rect: Rect)
    ensures
        d.resize ==> (placed(cursor, d, shift, stretch, rect) <==> call_ensures(
            stretch,
            (
                d.start_rect.x,
                d.start_rect.w,
                d.left,
                d.right,
                cursor.0,
                d.start_cursor.0,
                100i64,
            ),
            (rect.x, rect.w),
        ) && call_ensures(
            stretch,
            (
                d.start_rect.y,
                d.start_rect.h,
                d.top,
                d.bottom,
                cursor.1,
                d.start_cursor.1,
                100i64,
            ),
            (rect.y, rect.h),
        )),
        !d.resize && placed(cursor, d, shift, stretch, rect) ==> {
            &&& (rect.w, rect.h) == (d.start_rect.w, d.start_rect.h)
            &&& exists|dx: i32| #[trigger]
                call_ensures(shift, (cursor.0, d.start_cursor.0), dx) && rect.x == d.start_rect.x
                    + dx
            &&& exists|dy: i32| #[trigger]
                call_ensures(shift, (cursor.1, d.start_cursor.1), dy) && rect.y == d.start_rect.y
                    + dy
        },
{
}

/// A pane is gripped exactly if it floats, the cursor is within reach of it on both axes, and near
/// one of its four edges.
pub proof fn lemma_grips<C, N>(pane: Viewport<C, N>, x: Nearness, y: Nearness)
    ensures
        grips(pane, x, y) <==> pane is Floating && x is Some && y is Some && (x.unwrap().0
            || x.unwrap().1 || y.unwrap().0 || y.unwrap().1),
{
}

/// A separator drag follows the cursor across the bar: sideways where the slots stand side by
/// side, up and down where they stand one above the other.
pub proof fn lemma_along<N>(cursor: (N, N))
    ensures
        along(Axis::Vertical, cursor) == cursor.0,
        along(Axis::Horizontal, cursor) == cursor.1,
{
}

/// A slot's weight is that of the first slot with its identity, in whichever pane; of no slot, it
/// is the one that stands for it.
pub proof fn lemma_weight<C, N>(list: Seq<Cell<C, N>>, id: SlotId, one: N, k: int)
    ensures
        0 <= k < list.len() && list[k].id == id && (forall|j: int|
            0 <= j < k ==> (#[trigger] list[j]).id != id) ==> weight_or(list, id, one)
            == list[k].weight,
        (forall|j: int| 0 <= j < list.len() ==> (#[trigger] list[j]).id != id) ==> weight_or(
            list,
            id,
            one,
        ) == one,
{
    lemma_first_match_is_first(list, id);
    let m = match_index(list, id);
    if 0 <= k < list.len() && list[k].id == id && m < k {
        assert(list[m].id == id);
    }
}

/// A slot lies where the first region of it lies; without one, nowhere.
pub proof fn lemma_region(regions: Seq<Region>, slot: SlotId, k: int)
    ensures
        0 <= k < regions.len() && regions[k].slot == slot && (forall|j: int|
            0 <= j < k ==> (#[trigger] regions[j]).slot != slot) ==> region_of(regions, slot)
            == Some(regions[k].rect),
        (forall|j: int| 0 <= j < regions.len() ==> (#[trigger] regions[j]).slot != slot)
            ==> region_of(regions, slot) is None,
    decreases regions.len(),
{
    if regions.len() > 0 && regions[0].slot != slot {
        let rest = regions.drop_first();
        lemma_region(rest, slot, k - 1);
        if k < regions.len() && forall|j: int|
            0 <= j < k ==> (#[trigger] regions[j]).slot != slot {
            assert forall|j: int| 0 <= j < k - 1 implies (#[trigger] rest[j]).slot != slot by {
                assert(rest[j] == regions[j + 1]);
            }
        }
        if forall|j: int| 0 <= j < regions.len() ==> (#[trigger] regions[j]).slot != slot {
            assert forall|j: int| 0 <= j < rest.len() implies (#[trigger] rest[j]).slot != slot by {
                assert(rest[j] == regions[j + 1]);
            }
        }
    } else if regions.len() > 0 {
        assert(regions[0].slot == slot);
    }
}

/// With no drag in progress, the pane under the cursor is the pointer pane, and it lies where it
/// was hit, whichever pane was the pointer pane before. Over none, and during a drag, the pointer
/// pane stays, and lies where its region says, or all over the output.
pub proof fn lemma_pointer_takes_the_pane<C, N, S, H: Drivers>(
    o: &Orchestrator<C, N, S, H>,
    bounds: Rect,
    regions: Seq<Region>,
    hit: Option<(SlotId, Rect)>,
    k: int,
)
    ensures
        ({
            let pane = o.pointed_pane(bounds, regions, hit);
            let current = o.worlds.list[o.worlds.spawn_target as int].viewports.pointer;
            let free = o.separator_drag is None && o.floating_drag is None;
            &&& free && hit is Some ==> pane == hit.unwrap()
            &&& !free || hit is None ==> {
                &&& pane.0 == current
                &&& 0 <= k < regions.len() && regions[k].slot == current && (forall|j: int|
                    0 <= j < k ==> (#[trigger] regions[j]).slot != current) ==> pane.1
                    == regions[k].rect
                &&& (forall|j: int|
                    0 <= j < regions.len() ==> (#[trigger] regions[j]).slot != current) ==> pane.1
                    == bounds
            }
        }),
{
    lemma_region(regions, o.worlds.list[o.worlds.spawn_target as int].viewports.pointer, k);
}

/// The cursor at rest maps the same way: the same question, asked again of the session as the
/// first answer left it, has the same answer.
pub proof fn lemma_pointer_settles<C, N, S, H: Drivers>(
    before: &Orchestrator<C, N, S, H>,
    after: &Orchestrator<C, N, S, H>,
    bounds: Rect,
    regions: Seq<Region>,
    hit: Option<(SlotId, Rect)>,
)
    requires
        after.separator_drag is Some == before.separator_drag is Some,
        after.floating_drag is Some == before.floating_drag is Some,
        after.worlds.list[after.worlds.spawn_target as int].viewports.pointer
            == before.pointed_pane(bounds, regions, hit).0,
    ensures
        after.pointed_pane(bounds, regions, hit) == before.pointed_pane(bounds, regions, hit),
{
}

/// The camera to look through is that of the first slot with the identity of the pane being drawn,
/// if one is drawn and there; else of the first with that of the pane under the cursor, if that is
/// there; else that of the root's first leaf: all of the focused world. The identity that it is
/// written through is that of the same.
pub proof fn lemma_camera_is<C, N, S, H: Drivers>(o: &Orchestrator<C, N, S, H>, k: int)
    ensures
        ({
            let v = o.worlds.list[o.worlds.spawn_target as int].viewports;
            let list = v.in_order();
            let drawn = o.render_target matches Some(rt) && exists|j: int|
                0 <= j < list.len() && (#[trigger] list[j]).id == rt.slot;
            let pointed = exists|j: int|
                0 <= j < list.len() && (#[trigger] list[j]).id == v.pointer;
            let leads = |id: SlotId|
                0 <= k < list.len() && list[k].id == id && forall|j: int|
                    0 <= j < k ==> (#[trigger] list[j]).id != id;
            &&& o.render_target matches Some(rt) ==> (leads(rt.slot) ==> o.camera_cell() == list[k]
                && o.camera_id() == rt.slot && o.drawn_cell() == Some(list[k]))
            &&& !drawn && leads(v.pointer) ==> o.camera_cell() == list[k] && o.camera_id()
                == v.pointer
            &&& !drawn && !pointed ==> o.camera_cell() == v.root@.first_leaf() && o.camera_id()
                == v.root@.first_leaf().id
            &&& o.has_camera() <==> o.worlds.spawn_target < o.worlds.list.len() && (drawn || pointed
                || v.root@.has_leaf())
        }),
{
    let v = o.worlds.list[o.worlds.spawn_target as int].viewports;
    let list = v.in_order();
    lemma_focus(&v, k);
    lemma_first_match_is_first(list, v.pointer);
    if match_index(list, v.pointer) < list.len() {
        assert(list[match_index(list, v.pointer)].id == v.pointer);
    }
    if let Some(rt) = o.render_target {
        lemma_first_match_is_first(list, rt.slot);
        let m = match_index(list, rt.slot);
        if m < list.len() {
            assert(list[m].id == rt.slot);
            if m < k {
                assert(list[m].id == rt.slot);
            }
        }
    }
}

/// Sessions that are told to differ in one respect only agree in all others.
pub proof fn lemma_session_frames<C, N: Copy, S, H: Drivers>(
    a: &Orchestrator<C, N, S, H>,
    b: &Orchestrator<C, N, S, H>,
    world: World<C, N, S>,
)
    ensures
        a.same_but_worlds_and_drags(b) ==> {
            &&& a.start_time == b.start_time
            &&& a.status == b.status
            &&& a.lock_engage == b.lock_engage
            &&& a.__set_picker == b.__set_picker
            &&& a.status_session == b.status_session
            &&& a.kernel == b.kernel
            &&& a.pilot_tick == b.pilot_tick
            &&& a.host == b.host
        },
        a.same_but_worlds(b) ==> {
            &&& a.same_but_worlds_and_drags(b)
            &&& a.render_target == b.render_target
            &&& a.separator_drag == b.separator_drag
            &&& a.floating_drag == b.floating_drag
        },
        a.same_but_separator_drag(b) ==> {
            &&& a.same_but_worlds_and_drags(b)
            &&& a.worlds == b.worlds
            &&& a.render_target == b.render_target
            &&& a.floating_drag == b.floating_drag
        },
        a.same_but_floating_drag(b) ==> {
            &&& a.same_but_worlds_and_drags(b)
            &&& a.worlds == b.worlds
            &&& a.render_target == b.render_target
            &&& a.separator_drag == b.separator_drag
        },
        a.worlds_with(b, world) && b.worlds.spawn_target < b.worlds.list.len() ==> {
            &&& a.worlds.spawn_target == b.worlds.spawn_target
            &&& a.worlds.list.len() == b.worlds.list.len()
            &&& a.worlds.list[b.worlds.spawn_target as int] == world
            &&& forall|i: int|
                0 <= i < b.worlds.list.len() && i != b.worlds.spawn_target
                    ==> #[trigger] a.worlds.list[i] == b.worlds.list[i]
        },
        a.wf() <==> a.worlds.spawn_target < a.worlds.list.len(),
        a.dragging() <==> a.separator_drag is Some || a.floating_drag is Some,
        a.worlds.focused() == a.worlds.list[a.worlds.spawn_target as int],
{
}

/// What is measured of a floating pane: how near the cursor is to its left and right edge, and to
/// its top and bottom edge, with the same margin.
pub proof fn lemma_near_measured<C, N, F: Fn(N, i64, i64, i64) -> Nearness>(
    panes: Seq<Viewport<C, N>>,
    cursor: (N, N),
    near: F,
    low: int,
    xs: Seq<Nearness>,
    ys: Seq<Nearness>,
    i: int,
)
    requires
        near_measured(panes, cursor, near, low, xs, ys),
        0 <= i < panes.len(),
        low <= i,
    ensures
        panes[i] matches Viewport::Floating { rect, .. } ==> call_ensures(
            near,
            (cursor.0, rect.x as i64, (rect.x + rect.w) as i64, 24i64),
            xs[i],
        ) && call_ensures(
            near,
            (cursor.1, rect.y as i64, (rect.y + rect.h) as i64, 24i64),
            ys[i],
        ),
        xs.len() == panes.len(),
        ys.len() == panes.len(),
{
    assert(xs[i] == xs[i]);
}

/// What is asked of a move is no more than that the pane stays where a pane can be.
pub proof fn lemma_shifts_fit<N, F: Fn(N, N) -> i32>(
    cursor: (N, N),
    d: FloatingDrag<N>,
    shift: F,
)
    ensures
        shifts_fit(cursor, d, shift) <==> (forall|dx: i32| #[trigger]
            call_ensures(shift, (cursor.0, d.start_cursor.0), dx) ==> i32::MIN <= d.start_rect.x
                + dx <= i32::MAX) && (forall|dy: i32| #[trigger]
            call_ensures(shift, (cursor.1, d.start_cursor.1), dy) ==> i32::MIN <= d.start_rect.y
                + dy <= i32::MAX),
{
}

/// The pane that a drag holds is the floating pane at its position, if there is one.
pub proof fn lemma_held<C, N: Copy, S, H: Drivers>(
    o: &Orchestrator<C, N, S, H>,
    d: FloatingDrag<N>,
)
    ensures
        ({
            let panes = o.worlds.list[o.worlds.spawn_target as int].viewports.floating@;
            &&& o.held_pane(d) is Some <==> d.index < panes.len() && panes[d.index as int] is Floating
            &&& o.held_pane(d) matches Some(inner) ==> inner == panes[d.index as int]->inner
        }),
{
}

} // verus!
