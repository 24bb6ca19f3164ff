//! Per-world persistence of the viewport tree (split/float layout + each pane's camera).
//! What a camera holds only while it moves is transient and not persisted.
use vstd::prelude::*;

use crate::camera::{Camera, Point, Transform};
use crate::geometry::Rect;
use crate::viewport::{
    cells, cells_in_order, first_match, forest_in_order, lemma_cells, Axis, Cell, Slot, SlotId,
    Tree, Viewport, Viewports,
};

verus! {

/// The table that the records stand in.
pub const TABLE: &'static str = "world.viewport";

/// The version of the records.
pub const VERSION: u32 = 1;

#[derive(Clone, Copy, PartialEq, Eq, Structural, Debug)]
pub enum AxisRec {
    Vertical,
    Horizontal,
}

#[derive(PartialEq, Debug)]
pub enum ViewportRec<N> {
    Slots { axis: AxisRec, slots: Vec<SlotRec<N>> },
    Floating { rect: (i32, i32, i32, i32), inner: Box<ViewportRec<N>> },
}

#[derive(PartialEq, Debug)]
pub struct SlotRec<N> {
    pub id: u64,
    pub pos: (N, N),
    pub zoom: N,
    pub weight: N,
    pub content: Option<Box<ViewportRec<N>>>,
}

/// One world's whole viewport layout (one record per world).
#[derive(PartialEq, Debug)]
pub struct ViewportsRecord<N> {
    pub root: ViewportRec<N>,
    pub floating: Vec<ViewportRec<N>>,
    pub active: u64,
    pub pointer: u64,
    pub next_id: u64,
}

/// What of a world's viewports outlives the session.
#[verifier::ext_equal]
pub struct Layout<N> {
    pub root: Tree<Transform<N>, N>,
    pub floating: Seq<Tree<Transform<N>, N>>,
    pub active: u64,
    pub pointer: u64,
    pub next_id: u64,
}

impl AxisRec {
    /// The axis that is recorded.
    pub open spec fn view(&self) -> Axis {
        match self {
            AxisRec::Vertical => Axis::Vertical,
            AxisRec::Horizontal => Axis::Horizontal,
        }
    }
}

impl<N> ViewportRec<N> {
    /// The tree that is recorded.
    pub open spec fn view(&self) -> Tree<Transform<N>, N>
        decreases self,
    {
        match self {
            ViewportRec::Slots { axis, slots } => Tree::Slots {
                axis: axis@,
                slots: recorded_cells(slots@),
            },
            ViewportRec::Floating { rect, inner } => Tree::Floating {
                rect: Rect { x: rect.0, y: rect.1, w: rect.2, h: rect.3 },
                inner: Box::new(inner.view()),
            },
        }
    }
}

impl<N> SlotRec<N> {
    /// The cell that is recorded.
    pub open spec fn view(&self) -> Cell<Transform<N>, N>
        decreases self,
    {
        Cell {
            id: self.id,
            camera: Transform {
                position: Point { x: self.pos.0, y: self.pos.1 },
                zoom: self.zoom,
            },
            content: match self.content {
                Some(v) => Some(Box::new(v.view())),
                None => None,
            },
            weight: self.weight,
        }
    }
}

/// The cells that are recorded, in order.
pub open spec fn recorded_cells<N>(slots: Seq<SlotRec<N>>) -> Seq<Cell<Transform<N>, N>>
    decreases slots,
{
    if slots.len() == 0 {
        Seq::empty()
    } else {
        recorded_cells(slots.drop_last()).push(slots.last().view())
    }
}

impl<N> ViewportsRecord<N> {
    /// The layout that is recorded.
    pub open spec fn view(&self) -> Layout<N> {
        Layout {
            root: self.root@,
            floating: self.floating@.map_values(|v: ViewportRec<N>| v@),
            active: self.active,
            pointer: self.pointer,
            next_id: self.next_id,
        }
    }
}

impl<N, T> Tree<Camera<N, T>, N> {
    /// The tree without what its cameras hold only while they move.
    pub open spec fn persisted(self) -> Tree<Transform<N>, N>
        decreases self,
    {
        match self {
            Tree::Slots { axis, slots } => Tree::Slots { axis, slots: persisted_cells(slots) },
            Tree::Floating { rect, inner } => Tree::Floating {
                rect,
                inner: Box::new(inner.persisted()),
            },
        }
    }

}

impl<N, T> Cell<Camera<N, T>, N> {
    /// The cell without what its cameras hold only while they move.
    pub open spec fn persisted(self) -> Cell<Transform<N>, N>
        decreases self,
    {
        Cell {
            id: self.id,
            camera: self.camera.transform,
            content: match self.content {
                Some(v) => Some(Box::new(v.persisted())),
                None => None,
            },
            weight: self.weight,
        }
    }
}

/// The listed cells without what their cameras hold only while they move.
pub open spec fn persisted_cells<N, T>(slots: Seq<Cell<Camera<N, T>, N>>) -> Seq<
    Cell<Transform<N>, N>,
>
    decreases slots,
{
    if slots.len() == 0 {
        Seq::empty()
    } else {
        persisted_cells(slots.drop_last()).push(slots.last().persisted())
    }
}

impl<N, T> Viewports<Camera<N, T>, N> {
    /// What of the viewports outlives the session.
    pub open spec fn persisted(&self) -> Layout<N> {
        Layout {
            root: self.root@.persisted(),
            floating: self.floating@.map_values(|v: Viewport<Camera<N, T>, N>| v@.persisted()),
            active: self.active,
            pointer: self.pointer,
            next_id: self.next_id,
        }
    }
}

impl<N, T: Default> Tree<Camera<N, T>, N> {
    /// Whether every camera of the tree is at rest: what it holds while moving is the default.
    pub open spec fn at_rest(self) -> bool
        decreases self,
    {
        match self {
            Tree::Slots { slots, .. } => forall|i: int|
                0 <= i < slots.len() ==> (#[trigger] slots[i]).at_rest(),
            Tree::Floating { inner, .. } => inner.at_rest(),
        }
    }
}

impl<N, T: Default> Cell<Camera<N, T>, N> {
    /// Whether every camera of the cell is at rest.
    pub open spec fn at_rest(self) -> bool
        decreases self,
    {
        call_ensures(T::default, (), self.camera.transient) && match self.content {
            Some(v) => v.at_rest(),
            None => true,
        }
    }
}

proof fn lemma_recorded_cells<N>(slots: Seq<SlotRec<N>>)
    ensures
        recorded_cells(slots).len() == slots.len(),
        forall|i: int| 0 <= i < slots.len() ==> #[trigger] recorded_cells(slots)[i] == slots[i]@,
    decreases slots.len(),
{
    if slots.len() > 0 {
        lemma_recorded_cells(slots.drop_last());
    }
}

proof fn lemma_persisted_cells<N, T>(slots: Seq<Cell<Camera<N, T>, N>>)
    ensures
        persisted_cells(slots).len() == slots.len(),
        forall|i: int|
            0 <= i < slots.len() ==> #[trigger] persisted_cells(slots)[i] == slots[i].persisted(),
    decreases slots.len(),
{
    if slots.len() > 0 {
        lemma_persisted_cells(slots.drop_last());
    }
}

/// Records a viewport.
pub fn vp_to<N: Copy, T>(v: &Viewport<Camera<N, T>, N>) -> (r: ViewportRec<N>)
    ensures
        r@ == v@.persisted(),
        match v {
            Viewport::Slots { axis, slots } => r matches ViewportRec::Slots {
                axis: kept_axis,
                slots: kept,
            } && (kept_axis is Vertical <==> axis is Vertical) && kept.len() == slots.len() && forall|
                i: int,
            |
                0 <= i < slots.len() ==> {
                    let (k, s) = (#[trigger] kept[i], slots[i]);
                    &&& k.id == s.id
                    &&& k.pos == (s.camera.transform.position.x, s.camera.transform.position.y)
                    &&& k.zoom == s.camera.transform.zoom
                    &&& k.weight == s.weight
                    &&& k.content is Some <==> s.content is Some
                },
            Viewport::Floating { rect, .. } => r matches ViewportRec::Floating { rect: kept, .. }
                && kept == (rect.x, rect.y, rect.w, rect.h),
        },
    decreases v,
{
    match v {
        Viewport::Slots { axis, slots } => {
            let mut recs: Vec<SlotRec<N>> = Vec::new();
            let mut i: usize = 0;
            while i < slots.len()
                invariant
                    v matches Viewport::Slots { slots: listed, .. } && listed == slots,
                    i <= slots.len(),
                    recs.len() == i,
                    forall|j: int| 0 <= j < i ==> (#[trigger] recs[j])@ == slots[j]@.persisted(),
                    forall|j: int|
                        0 <= j < i ==> {
                            let (k, s) = (#[trigger] recs[j], slots[j]);
                            &&& k.id == s.id
                            &&& k.pos == (
                                s.camera.transform.position.x,
                                s.camera.transform.position.y,
                            )
                            &&& k.zoom == s.camera.transform.zoom
                            &&& k.weight == s.weight
                            &&& k.content is Some <==> s.content is Some
                        },
                decreases slots.len() - i,
            {
                recs.push(slot_to(&slots[i]));
                i = i + 1;
            }
            proof {
                lemma_cells(slots@);
                lemma_persisted_cells(cells(slots@));
                lemma_recorded_cells(recs@);
                assert(recorded_cells(recs@) =~= persisted_cells(cells(slots@)));
            }
            ViewportRec::Slots {
                axis: match axis {
                    Axis::Vertical => AxisRec::Vertical,
                    Axis::Horizontal => AxisRec::Horizontal,
                },
                slots: recs,
            }
        },
        Viewport::Floating { rect, inner } => ViewportRec::Floating {
            rect: (rect.x, rect.y, rect.w, rect.h),
            inner: Box::new(vp_to(inner)),
        },
    }
}

/// Records a slot.
fn slot_to<N: Copy, T>(s: &Slot<Camera<N, T>, N>) -> (r: SlotRec<N>)
    ensures
        r@ == s@.persisted(),
        r.id == s.id,
        r.pos == (s.camera.transform.position.x, s.camera.transform.position.y),
        r.zoom == s.camera.transform.zoom,
        r.weight == s.weight,
        r.content is Some <==> s.content is Some,
        s.content matches Some(inner) ==> (r.content matches Some(kept) && kept@
            == inner@.persisted()),
    decreases s,
{
    SlotRec {
        id: s.id,
        pos: (s.camera.transform.position.x, s.camera.transform.position.y),
        zoom: s.camera.transform.zoom,
        weight: s.weight,
        content: match &s.content {
            Some(v) => Some(Box::new(vp_to(v))),
            None => None,
        },
    }
}

/// Rebuilds a viewport from its record, every camera at rest.
pub fn vp_from<N: Copy, T: Default>(v: &ViewportRec<N>) -> (r: Viewport<Camera<N, T>, N>)
    ensures
        r@.persisted() == v@,
        r@.at_rest(),
        match v {
            ViewportRec::Slots { axis, slots } => r matches Viewport::Slots {
                axis: live_axis,
                slots: live,
            } && (live_axis is Vertical <==> axis is Vertical) && live.len() == slots.len() && forall|
                i: int,
            |
                0 <= i < slots.len() ==> {
                    let (s, k) = (#[trigger] live[i], slots[i]);
                    &&& k.id == s.id
                    &&& k.pos == (s.camera.transform.position.x, s.camera.transform.position.y)
                    &&& k.zoom == s.camera.transform.zoom
                    &&& k.weight == s.weight
                    &&& k.content is Some <==> s.content is Some
                    &&& call_ensures(T::default, (), s.camera.transient)
                },
            ViewportRec::Floating { rect, .. } => r matches Viewport::Floating { rect: live, .. }
                && rect == (live.x, live.y, live.w, live.h),
        },
    decreases v,
{
    match v {
        ViewportRec::Slots { axis, slots } => {
            let mut live: Vec<Slot<Camera<N, T>, N>> = Vec::new();
            let mut i: usize = 0;
            while i < slots.len()
                invariant
                    v matches ViewportRec::Slots { slots: listed, .. } && listed == slots,
                    i <= slots.len(),
                    live.len() == i,
                    forall|j: int|
                        0 <= j < i ==> (#[trigger] live[j])@.persisted() == slots[j]@
                            && live[j]@.at_rest(),
                    forall|j: int|
                        0 <= j < i ==> {
                            let (s, k) = (#[trigger] live[j], slots[j]);
                            &&& k.id == s.id
                            &&& k.pos == (
                                s.camera.transform.position.x,
                                s.camera.transform.position.y,
                            )
                            &&& k.zoom == s.camera.transform.zoom
                            &&& k.weight == s.weight
                            &&& k.content is Some <==> s.content is Some
                            &&& call_ensures(T::default, (), s.camera.transient)
                        },
                decreases slots.len() - i,
            {
                live.push(slot_from(&slots[i]));
                i = i + 1;
            }
            proof {
                lemma_cells(live@);
                lemma_persisted_cells(cells(live@));
                lemma_recorded_cells(slots@);
                assert(recorded_cells(slots@) =~= persisted_cells(cells(live@)));
                assert forall|j: int| 0 <= j < cells(live@).len() implies (
                #[trigger] cells(live@)[j]).at_rest() by {
                    assert(live[j]@.at_rest());
                }
            }
            Viewport::Slots {
                axis: match axis {
                    AxisRec::Vertical => Axis::Vertical,
                    AxisRec::Horizontal => Axis::Horizontal,
                },
                slots: live,
            }
        },
        ViewportRec::Floating { rect, inner } => Viewport::Floating {
            rect: Rect { x: rect.0, y: rect.1, w: rect.2, h: rect.3 },
            inner: Box::new(vp_from(inner)),
        },
    }
}

/// Rebuilds a slot from its record, every camera at rest.
fn slot_from<N: Copy, T: Default>(s: &SlotRec<N>) -> (r: Slot<Camera<N, T>, N>)
    ensures
        r@.persisted() == s@,
        r@.at_rest(),
        r.id == s.id,
        s.pos == (r.camera.transform.position.x, r.camera.transform.position.y),
        r.camera.transform.zoom == s.zoom,
        r.weight == s.weight,
        r.content is Some <==> s.content is Some,
        s.content matches Some(kept) ==> (r.content matches Some(inner) && inner@.persisted()
            == kept@ && inner@.at_rest()),
        call_ensures(T::default, (), r.camera.transient),
    decreases s,
{
    Slot {
        id: s.id,
        camera: Camera {
            transform: Transform { position: Point { x: s.pos.0, y: s.pos.1 }, zoom: s.zoom },
            transient: T::default(),
        },
        content: match &s.content {
            Some(v) => Some(Box::new(vp_from(v))),
            None => None,
        },
        weight: s.weight,
    }
}

/// The document that keeps a world's viewports.
pub struct ViewportsDoc;

impl ViewportsDoc {
    /// The rows that keep `s`: one, without index columns.
    pub fn rows<N: Copy, T>(s: &Viewports<Camera<N, T>, N>) -> (r: Vec<
        (String, Vec<(&'static str, String)>, ViewportsRecord<N>),
    >)
        ensures
            r.len() == 1,
            r[0].0@ == "viewports"@,
            r[0].1.len() == 0,
            r[0].2@ == s.persisted(),
            r[0].2.active == s.active,
            r[0].2.pointer == s.pointer,
            r[0].2.next_id == s.next_id,
            r[0].2.root@ == s.root@.persisted(),
            r[0].2.floating.len() == s.floating.len(),
            forall|i: int|
                0 <= i < s.floating.len() ==> (#[trigger] r[0].2.floating[i])@
                    == s.floating[i]@.persisted(),
    {
        let mut floating: Vec<ViewportRec<N>> = Vec::new();
        let mut i: usize = 0;
        while i < s.floating.len()
            invariant
                i <= s.floating.len(),
                floating.len() == i,
                forall|j: int|
                    0 <= j < i ==> (#[trigger] floating[j])@ == s.floating[j]@.persisted(),
            decreases s.floating.len() - i,
        {
            floating.push(vp_to(&s.floating[i]));
            i = i + 1;
        }
        let record = ViewportsRecord {
            root: vp_to(&s.root),
            floating,
            active: s.active,
            pointer: s.pointer,
            next_id: s.next_id,
        };
        assert(record@.floating =~= s.persisted().floating);
        let mut rows: Vec<(String, Vec<(&'static str, String)>, ViewportsRecord<N>)> = Vec::new();
        rows.push(("viewports".to_owned(), Vec::new(), record));
        rows
    }

    /// Puts the recorded layout in place of that of `s`; which windows are visible stays.
    pub fn apply<N: Copy, T: Default>(
        s: &mut Viewports<Camera<N, T>, N>,
        _id: &str,
        rec: ViewportsRecord<N>,
    )
        ensures
            final(s).persisted() == rec@,
            final(s).active == rec.active,
            final(s).pointer == rec.pointer,
            final(s).next_id == rec.next_id,
            final(s).root@.persisted() == rec.root@,
            final(s).floating.len() == rec.floating.len(),
            forall|i: int|
                0 <= i < rec.floating.len() ==> (#[trigger] final(s).floating[i])@.persisted()
                    == rec.floating[i]@,
            final(s).root@.at_rest(),
            forall|i: int|
                0 <= i < final(s).floating.len() ==> (#[trigger] final(s).floating[i])@.at_rest(),
            final(s).visible == old(s).visible,
    {
        let mut floating: Vec<Viewport<Camera<N, T>, N>> = Vec::new();
        let mut i: usize = 0;
        while i < rec.floating.len()
            invariant
                i <= rec.floating.len(),
                floating.len() == i,
                forall|j: int|
                    0 <= j < i ==> (#[trigger] floating[j])@.persisted() == rec.floating[j]@
                        && floating[j]@.at_rest(),
            decreases rec.floating.len() - i,
        {
            floating.push(vp_from(&rec.floating[i]));
            i = i + 1;
        }
        s.root = vp_from(&rec.root);
        s.floating = floating;
        s.active = rec.active;
        s.pointer = rec.pointer;
        s.next_id = rec.next_id;
        assert(s.persisted().floating =~= rec@.floating);
    }
}

/// The listed cells, each without what its cameras hold only while they move.
pub open spec fn persisted_list<N, T>(list: Seq<Cell<Camera<N, T>, N>>) -> Seq<
    Cell<Transform<N>, N>,
> {
    list.map_values(|c: Cell<Camera<N, T>, N>| c.persisted())
}

proof fn lemma_persisted_match<N, T>(list: Seq<Cell<Camera<N, T>, N>>, id: SlotId)
    ensures
        first_match(persisted_list(list), id) == match first_match(list, id) {
            Some(c) => Some(c.persisted()),
            None => None,
        },
    decreases list.len(),
{
    if list.len() > 0 {
        assert(persisted_list(list).drop_first() =~= persisted_list(list.drop_first()));
        lemma_persisted_match(list.drop_first(), id);
    }
}

proof fn lemma_persisted_cell_in_order<N, T>(c: Cell<Camera<N, T>, N>)
    ensures
        c.persisted().in_order() == persisted_list(c.in_order()),
    decreases c,
{
    match c.content {
        Some(inner) => {
            lemma_persisted_in_order(*inner);
        },
        None => {},
    }
    assert(c.persisted().in_order() =~= persisted_list(c.in_order()));
}

proof fn lemma_persisted_cells_in_order<N, T>(slots: Seq<Cell<Camera<N, T>, N>>)
    ensures
        cells_in_order(persisted_cells(slots)) == persisted_list(cells_in_order(slots)),
    decreases slots,
{
    if slots.len() > 0 {
        lemma_persisted_cells_in_order(slots.drop_last());
        lemma_persisted_cell_in_order(slots.last());
        let init = persisted_cells(slots.drop_last());
        assert(init.push(slots.last().persisted()).drop_last() =~= init);
    }
    assert(cells_in_order(persisted_cells(slots)) =~= persisted_list(cells_in_order(slots)));
}

/// Persisting keeps every slot, in document order.
pub proof fn lemma_persisted_in_order<N, T>(t: Tree<Camera<N, T>, N>)
    ensures
        t.persisted().in_order() == persisted_list(t.in_order()),
    decreases t,
{
    match t {
        Tree::Slots { slots, .. } => lemma_persisted_cells_in_order(slots),
        Tree::Floating { inner, .. } => lemma_persisted_in_order(*inner),
    }
}

proof fn lemma_persisted_first_leaf<N, T>(t: Tree<Camera<N, T>, N>)
    ensures
        t.persisted().has_leaf() == t.has_leaf(),
        t.has_leaf() ==> t.persisted().first_leaf() == t.first_leaf().persisted(),
    decreases t,
{
    match t {
        Tree::Slots { slots, .. } => {
            lemma_persisted_cells(slots);
            if slots.len() > 0 {
                match slots[0].content {
                    Some(inner) => lemma_persisted_first_leaf(*inner),
                    None => {},
                }
            }
        },
        Tree::Floating { inner, .. } => lemma_persisted_first_leaf(*inner),
    }
}

impl<N> Layout<N> {
    /// Every pane: the root, then the floating ones.
    pub open spec fn panes(self) -> Seq<Tree<Transform<N>, N>> {
        seq![self.root] + self.floating
    }

    /// Every slot of every pane, in search order.
    pub open spec fn in_order(self) -> Seq<Cell<Transform<N>, N>> {
        forest_in_order(self.panes())
    }
}

proof fn lemma_persisted_forest<N, T>(
    live: Seq<Tree<Camera<N, T>, N>>,
    kept: Seq<Tree<Transform<N>, N>>,
)
    requires
        live.len() == kept.len(),
        forall|i: int| 0 <= i < live.len() ==> #[trigger] kept[i] == live[i].persisted(),
    ensures
        forest_in_order(kept) == persisted_list(forest_in_order(live)),
    decreases live.len(),
{
    if live.len() > 0 {
        lemma_persisted_forest(live.drop_last(), kept.drop_last());
        lemma_persisted_in_order(live.last());
    }
    assert(forest_in_order(kept) =~= persisted_list(forest_in_order(live)));
}

/// What is kept of a world's viewports finds every slot that they find, with the same
/// transform and weight.
pub proof fn lemma_kept_slots<N, T>(v: &Viewports<Camera<N, T>, N>, id: SlotId)
    ensures
        first_match(v.persisted().in_order(), id) == match first_match(v.in_order(), id) {
            Some(c) => Some(c.persisted()),
            None => None,
        },
{
    lemma_persisted_forest(v.panes(), v.persisted().panes());
    lemma_persisted_match(v.in_order(), id);
}

/// Viewports rebuilt from the rows of others show what those showed: every slot is found that
/// was found, with its transform and weight; the pane under the cursor and the keyboard target
/// are the same; and the operative camera looks where it looked.
pub proof fn lemma_round_trip<N, T>(
    saved: &Viewports<Camera<N, T>, N>,
    row: &ViewportsRecord<N>,
    rebuilt: &Viewports<Camera<N, T>, N>,
    id: SlotId,
)
    requires
        row@ == saved.persisted(),
        rebuilt.persisted() == row@,
    ensures
        rebuilt.persisted() == saved.persisted(),
        rebuilt.active == saved.active,
        rebuilt.pointer == saved.pointer,
        rebuilt.next_id == saved.next_id,
        match first_match(rebuilt.in_order(), id) {
            Some(c) => first_match(saved.in_order(), id) matches Some(b) && c.persisted()
                == b.persisted(),
            None => first_match(saved.in_order(), id) is None,
        },
        rebuilt.has_focus() == saved.has_focus(),
        saved.has_focus() ==> rebuilt.focus_cell().persisted() == saved.focus_cell().persisted(),
{
    lemma_kept_slots(saved, id);
    lemma_kept_slots(rebuilt, id);
    lemma_kept_slots(saved, saved.pointer);
    lemma_kept_slots(rebuilt, rebuilt.pointer);
    lemma_persisted_first_leaf(saved.root@);
    lemma_persisted_first_leaf(rebuilt.root@);
}

/// Whether the two records are one and the same, field by field.
pub open spec fn same_viewport<N>(a: ViewportRec<N>, b: ViewportRec<N>) -> bool
    decreases a,
{
    match a {
        ViewportRec::Slots { axis, slots } => b matches ViewportRec::Slots {
            axis: other_axis,
            slots: other_slots,
        } && axis == other_axis && same_slots(slots@, other_slots@),
        ViewportRec::Floating { rect, inner } => b matches ViewportRec::Floating {
            rect: other_rect,
            inner: other_inner,
        } && rect == other_rect && same_viewport(*inner, *other_inner),
    }
}

/// Whether the two slot records are one and the same, field by field.
pub open spec fn same_slot<N>(a: SlotRec<N>, b: SlotRec<N>) -> bool
    decreases a,
{
    &&& a.id == b.id
    &&& a.pos == b.pos
    &&& a.zoom == b.zoom
    &&& a.weight == b.weight
    &&& match a.content {
        Some(v) => b.content matches Some(w) && same_viewport(*v, *w),
        None => b.content is None,
    }
}

/// Whether the listed slot records are the same, in the same order.
pub open spec fn same_slots<N>(a: Seq<SlotRec<N>>, b: Seq<SlotRec<N>>) -> bool
    decreases a,
{
    a.len() == b.len() && (a.len() == 0 || (same_slots(a.drop_last(), b.drop_last()) && same_slot(
        a.last(),
        b.last(),
    )))
}

/// Whether the two layout records are one and the same, field by field.
pub open spec fn same_record<N>(a: ViewportsRecord<N>, b: ViewportsRecord<N>) -> bool {
    &&& same_viewport(a.root, b.root)
    &&& a.floating.len() == b.floating.len()
    &&& forall|i: int|
        0 <= i < a.floating.len() ==> same_viewport(#[trigger] a.floating[i], b.floating[i])
    &&& a.active == b.active
    &&& a.pointer == b.pointer
    &&& a.next_id == b.next_id
}

proof fn lemma_same_viewport<N>(a: ViewportRec<N>, b: ViewportRec<N>)
    requires
        a@ == b@,
    ensures
        same_viewport(a, b),
    decreases a,
{
    match (a, b) {
        (ViewportRec::Slots { slots: p, .. }, ViewportRec::Slots { slots: q, .. }) => {
            lemma_same_slots(p@, q@);
        },
        (ViewportRec::Floating { inner: v, .. }, ViewportRec::Floating { inner: w, .. }) => {
            lemma_same_viewport(*v, *w);
        },
        _ => {},
    }
}

proof fn lemma_same_slot<N>(a: SlotRec<N>, b: SlotRec<N>)
    requires
        a@ == b@,
    ensures
        same_slot(a, b),
    decreases a,
{
    match (a.content, b.content) {
        (Some(v), Some(w)) => lemma_same_viewport(*v, *w),
        _ => {},
    }
}

proof fn lemma_same_slots<N>(a: Seq<SlotRec<N>>, b: Seq<SlotRec<N>>)
    requires
        recorded_cells(a) == recorded_cells(b),
    ensures
        same_slots(a, b),
    decreases a,
{
    lemma_recorded_cells(a);
    lemma_recorded_cells(b);
    if a.len() > 0 {
        let (p, q) = (recorded_cells(a), recorded_cells(b));
        assert(p.drop_last() =~= recorded_cells(a.drop_last()));
        assert(q.drop_last() =~= recorded_cells(b.drop_last()));
        assert(p.last() == a.last()@ && q.last() == b.last()@);
        lemma_same_slots(a.drop_last(), b.drop_last());
        lemma_same_slot(a.last(), b.last());
    }
}

/// A viewport that is rebuilt from a record, and recorded again, gives the record: axis, slot
/// order, identities, positions, zooms, weights, nesting and floating rectangles all survive.
pub proof fn lemma_record_rebuilt<N, T>(
    rec: ViewportRec<N>,
    rebuilt: Viewport<Camera<N, T>, N>,
    again: ViewportRec<N>,
)
    requires
        rebuilt@.persisted() == rec@,
        again@ == rebuilt@.persisted(),
    ensures
        same_viewport(again, rec),
{
    lemma_same_viewport(again, rec);
}

/// The same of a world's whole layout: what is put in place from a row is the row that is kept of
/// it.
pub proof fn lemma_row_rebuilt<N, T>(
    rec: ViewportsRecord<N>,
    rebuilt: &Viewports<Camera<N, T>, N>,
    again: ViewportsRecord<N>,
)
    requires
        rebuilt.persisted() == rec@,
        again@ == rebuilt.persisted(),
    ensures
        same_record(again, rec),
{
    lemma_same_viewport(again.root, rec.root);
    assert(again@.floating.len() == again.floating.len());
    assert(rec@.floating.len() == rec.floating.len());
    assert forall|i: int| 0 <= i < again.floating.len() implies same_viewport(
        #[trigger] again.floating[i],
        rec.floating[i],
    ) by {
        assert(again@.floating[i] == again.floating[i]@);
        assert(rec@.floating[i] == rec.floating[i]@);
        lemma_same_viewport(again.floating[i], rec.floating[i]);
    }
}

/// A record is read as it is: its axis and its slots in their order, each with its identity, its
/// camera's position and zoom, its weight and what it holds; or its rectangle and what it wraps.
pub proof fn lemma_record_read<N>(v: &ViewportRec<N>, s: &SlotRec<N>)
    ensures
        v matches ViewportRec::Slots { axis, slots } ==> (v@ matches Tree::Slots {
            axis: read_axis,
            slots: read,
        } && (read_axis is Vertical <==> axis is Vertical) && read.len() == slots.len() && forall|
            i: int,
        |
            0 <= i < slots.len() ==> #[trigger] read[i] == slots[i]@),
        v matches ViewportRec::Floating { rect, inner } ==> (v@ matches Tree::Floating {
            rect: read_rect,
            inner: read_inner,
        } && (read_rect.x, read_rect.y, read_rect.w, read_rect.h) == rect && *read_inner == inner@),
        s@.id == s.id,
        (s@.camera.position.x, s@.camera.position.y) == s.pos,
        s@.camera.zoom == s.zoom,
        s@.weight == s.weight,
        s.content is None ==> s@.content is None,
        s.content matches Some(inner) ==> (s@.content matches Some(read) && *read == inner@),
{
    if let ViewportRec::Slots { slots, .. } = v {
        lemma_recorded_cells(slots@);
    }
}

/// What is kept of a tree: the same tree, slot for slot, with what each camera looks at in place
/// of the camera.
pub proof fn lemma_kept_tree<N, T>(t: Tree<Camera<N, T>, N>, c: Cell<Camera<N, T>, N>)
    ensures
        t matches Tree::Slots { axis, slots } ==> (t.persisted() matches Tree::Slots {
            axis: kept_axis,
            slots: kept,
        } && kept_axis == axis && kept.len() == slots.len() && forall|i: int|
            0 <= i < slots.len() ==> #[trigger] kept[i] == slots[i].persisted()),
        t matches Tree::Floating { rect, inner } ==> (t.persisted() matches Tree::Floating {
            rect: kept_rect,
            inner: kept_inner,
        } && kept_rect == rect && *kept_inner == inner.persisted()),
        c.persisted().id == c.id,
        c.persisted().camera == c.camera.transform,
        c.persisted().weight == c.weight,
        c.content is None ==> c.persisted().content is None,
        c.content matches Some(inner) ==> (c.persisted().content matches Some(kept) && *kept
            == inner.persisted()),
{
    if let Tree::Slots { slots, .. } = t {
        lemma_persisted_cells(slots);
    }
}

/// What is kept of a world's viewports, field by field.
pub proof fn lemma_kept_layout<N, T>(v: &Viewports<Camera<N, T>, N>, rec: &ViewportsRecord<N>)
    ensures
        v.persisted().root == v.root@.persisted(),
        v.persisted().floating.len() == v.floating.len(),
        forall|i: int|
            0 <= i < v.floating.len() ==> #[trigger] v.persisted().floating[i]
                == v.floating[i]@.persisted(),
        v.persisted().active == v.active,
        v.persisted().pointer == v.pointer,
        v.persisted().next_id == v.next_id,
        rec@.root == rec.root@,
        rec@.floating.len() == rec.floating.len(),
        forall|i: int|
            0 <= i < rec.floating.len() ==> #[trigger] rec@.floating[i] == rec.floating[i]@,
        rec@.active == rec.active,
        rec@.pointer == rec.pointer,
        rec@.next_id == rec.next_id,
{
}

/// A tree at rest has every camera at rest, in document order.
pub proof fn lemma_at_rest<N, T: Default>(t: Tree<Camera<N, T>, N>, c: Cell<Camera<N, T>, N>)
    ensures
        t.at_rest() ==> forall|i: int|
            0 <= i < t.in_order().len() ==> call_ensures(
                T::default,
                (),
                (#[trigger] t.in_order()[i]).camera.transient,
            ),
        c.at_rest() ==> forall|i: int|
            0 <= i < c.in_order().len() ==> call_ensures(
                T::default,
                (),
                (#[trigger] c.in_order()[i]).camera.transient,
            ),
{
    if t.at_rest() {
        lemma_tree_at_rest(t);
    }
    if c.at_rest() {
        lemma_cell_at_rest(c);
    }
}

proof fn lemma_tree_at_rest<N, T: Default>(t: Tree<Camera<N, T>, N>)
    requires
        t.at_rest(),
    ensures
        forall|i: int|
            0 <= i < t.in_order().len() ==> call_ensures(
                T::default,
                (),
                (#[trigger] t.in_order()[i]).camera.transient,
            ),
    decreases t,
{
    match t {
        Tree::Slots { slots, .. } => lemma_cells_at_rest(slots),
        Tree::Floating { inner, .. } => lemma_tree_at_rest(*inner),
    }
}

proof fn lemma_cell_at_rest<N, T: Default>(c: Cell<Camera<N, T>, N>)
    requires
        c.at_rest(),
    ensures
        forall|i: int|
            0 <= i < c.in_order().len() ==> call_ensures(
                T::default,
                (),
                (#[trigger] c.in_order()[i]).camera.transient,
            ),
    decreases c,
{
    if let Some(inner) = c.content {
        lemma_tree_at_rest(*inner);
        assert forall|i: int| 0 <= i < c.in_order().len() implies call_ensures(
            T::default,
            (),
            (#[trigger] c.in_order()[i]).camera.transient,
        ) by {
            if i > 0 {
                assert(c.in_order()[i] == inner.in_order()[i - 1]);
            }
        }
    }
}

proof fn lemma_cells_at_rest<N, T: Default>(slots: Seq<Cell<Camera<N, T>, N>>)
    requires
        forall|i: int| 0 <= i < slots.len() ==> (#[trigger] slots[i]).at_rest(),
    ensures
        forall|i: int|
            0 <= i < cells_in_order(slots).len() ==> call_ensures(
                T::default,
                (),
                (#[trigger] cells_in_order(slots)[i]).camera.transient,
            ),
    decreases slots,
{
    if slots.len() > 0 {
        let init = slots.drop_last();
        let head = cells_in_order(init);
        let last = slots[slots.len() - 1];
        assert forall|i: int| 0 <= i < init.len() implies (#[trigger] init[i]).at_rest() by {
            assert(init[i] == slots[i]);
        }
        assert(last.at_rest());
        lemma_cells_at_rest(init);
        lemma_cell_at_rest(last);
        assert forall|i: int| 0 <= i < cells_in_order(slots).len() implies call_ensures(
            T::default,
            (),
            (#[trigger] cells_in_order(slots)[i]).camera.transient,
        ) by {
            if i < head.len() {
                assert(cells_in_order(slots)[i] == head[i]);
            } else {
                assert(cells_in_order(slots)[i] == last.in_order()[i - head.len()]);
            }
        }
    }
}

/// Records that are the same agree in every field, at every depth.
pub proof fn lemma_same_fields<N>(
    a: ViewportRec<N>,
    b: ViewportRec<N>,
    s: SlotRec<N>,
    t: SlotRec<N>,
)
    ensures
        same_viewport(a, b) ==> match a {
            ViewportRec::Slots { axis, slots } => b matches ViewportRec::Slots {
                axis: other_axis,
                slots: other,
            } && axis == other_axis && slots.len() == other.len() && forall|i: int|
                0 <= i < slots.len() ==> same_slot(#[trigger] slots[i], other[i]),
            ViewportRec::Floating { rect, inner } => b matches ViewportRec::Floating {
                rect: other_rect,
                inner: other,
            } && rect == other_rect && same_viewport(*inner, *other),
        },
        same_slot(s, t) ==> {
            &&& (s.id, s.pos, s.zoom, s.weight) == (t.id, t.pos, t.zoom, t.weight)
            &&& s.content is None ==> t.content is None
            &&& s.content matches Some(v) ==> (t.content matches Some(w) && same_viewport(*v, *w))
        },
{
    if same_viewport(a, b) {
        if let (ViewportRec::Slots { slots: p, .. }, ViewportRec::Slots { slots: q, .. }) = (a, b) {
            lemma_same_each(p@, q@);
        }
    }
}

proof fn lemma_same_each<N>(a: Seq<SlotRec<N>>, b: Seq<SlotRec<N>>)
    requires
        same_slots(a, b),
    ensures
        a.len() == b.len(),
        forall|i: int| 0 <= i < a.len() ==> same_slot(#[trigger] a[i], b[i]),
    decreases a.len(),
{
    if a.len() > 0 {
        let (p, q) = (a.drop_last(), b.drop_last());
        lemma_same_each(p, q);
        assert forall|i: int| 0 <= i < a.len() implies same_slot(#[trigger] a[i], b[i]) by {
            if i < p.len() {
                assert(p[i] == a[i] && q[i] == b[i]);
            }
        }
    }
}

} // verus!
