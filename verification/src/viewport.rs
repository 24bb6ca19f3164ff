//! Viewport tree: a root [`Viewport`] of [`Slot`]s (+ `floating` panes); each slot owns a camera.
use std::collections::HashMap;

use vstd::prelude::*;

use crate::geometry::Rect;

verus! {

/// Stable per-world slot identity (the shortcut target; also seeds damage ids).
pub type SlotId = u64;

#[derive(Clone, Copy, PartialEq, Eq, Structural, Debug)]
pub enum Axis {
    Vertical,
    Horizontal,
}

/// An array of slots, or a floating pane wrapping a (splittable) viewport.
pub enum Viewport<C, W> {
    Slots { axis: Axis, slots: Vec<Slot<C, W>> },
    Floating { rect: Rect, inner: Box<Viewport<C, W>> },
}

/// A drawing cell. `camera` is live for a leaf (`content` is `None`); `weight` is its
/// size share within the parent `Slots` array (separator-drag adjusts it).
pub struct Slot<C, W> {
    pub id: SlotId,
    pub camera: C,
    pub content: Option<Box<Viewport<C, W>>>,
    pub weight: W,
}

/// What a [`Viewport`] is, with its slots as a mathematical sequence.
#[verifier::ext_equal]
pub enum Tree<C, W> {
    Slots { axis: Axis, slots: Seq<Cell<C, W>> },
    Floating { rect: Rect, inner: Box<Tree<C, W>> },
}

/// What a [`Slot`] is.
#[verifier::ext_equal]
pub struct Cell<C, W> {
    pub id: SlotId,
    pub camera: C,
    pub content: Option<Box<Tree<C, W>>>,
    pub weight: W,
}

impl<C, W> Viewport<C, W> {
    /// The mathematical tree that this viewport represents.
    pub open spec fn view(&self) -> Tree<C, W>
        decreases self,
    {
        match self {
            Viewport::Slots { axis, slots } => Tree::Slots { axis: *axis, slots: cells(slots@) },
            Viewport::Floating { rect, inner } => Tree::Floating {
                rect: *rect,
                inner: Box::new(inner.view()),
            },
        }
    }
}

impl<C, W> Slot<C, W> {
    /// The mathematical cell that this slot represents.
    pub open spec fn view(&self) -> Cell<C, W>
        decreases self,
    {
        Cell {
            id: self.id,
            camera: self.camera,
            content: match self.content {
                Some(v) => Some(Box::new(v.view())),
                None => None,
            },
            weight: self.weight,
        }
    }
}

/// The cells that a sequence of slots represents, in order.
pub open spec fn cells<C, W>(slots: Seq<Slot<C, W>>) -> Seq<Cell<C, W>>
    decreases slots,
{
    if slots.len() == 0 {
        Seq::empty()
    } else {
        cells(slots.drop_last()).push(slots.last().view())
    }
}

impl<C, W> Tree<C, W> {
    /// Every cell of the tree in document order: a container stands before its content.
    pub open spec fn in_order(self) -> Seq<Cell<C, W>>
        decreases self,
    {
        match self {
            Tree::Slots { slots, .. } => cells_in_order(slots),
            Tree::Floating { inner, .. } => inner.in_order(),
        }
    }

    /// Whether descending through first slots reaches a leaf.
    pub open spec fn has_leaf(self) -> bool
        decreases self,
    {
        match self {
            Tree::Slots { slots, .. } => slots.len() > 0 && match slots[0].content {
                Some(inner) => inner.has_leaf(),
                None => true,
            },
            Tree::Floating { inner, .. } => inner.has_leaf(),
        }
    }

    /// The leaf reached by descending through first slots.
    pub open spec fn first_leaf(self) -> Cell<C, W>
        decreases self,
    {
        match self {
            Tree::Slots { slots, .. } => match slots[0].content {
                Some(inner) if slots.len() > 0 => inner.first_leaf(),
                _ => slots[0],
            },
            Tree::Floating { inner, .. } => inner.first_leaf(),
        }
    }

    /// The tree with the first cell identified by `id` replaced by `new`.
    pub open spec fn replace(self, id: SlotId, new: Cell<C, W>) -> Tree<C, W>
        decreases self,
    {
        match self {
            Tree::Slots { axis, slots } => Tree::Slots { axis, slots: replace_in(slots, id, new) },
            Tree::Floating { rect, inner } => Tree::Floating {
                rect,
                inner: Box::new(inner.replace(id, new)),
            },
        }
    }
}

impl<C, W> Cell<C, W> {
    /// The cell followed by every cell of its content.
    pub open spec fn in_order(self) -> Seq<Cell<C, W>>
        decreases self,
    {
        match self.content {
            Some(inner) => seq![self] + inner.in_order(),
            None => seq![self],
        }
    }

    /// The cell with its first occurrence of `id` (itself, else within) replaced by `new`.
    pub open spec fn replace(self, id: SlotId, new: Cell<C, W>) -> Cell<C, W>
        decreases self,
    {
        if self.id == id {
            new
        } else {
            match self.content {
                Some(inner) => Cell { content: Some(Box::new(inner.replace(id, new))), ..self },
                None => self,
            }
        }
    }
}

/// Every cell of the listed cells in document order.
pub open spec fn cells_in_order<C, W>(slots: Seq<Cell<C, W>>) -> Seq<Cell<C, W>>
    decreases slots,
{
    if slots.len() == 0 {
        Seq::empty()
    } else {
        cells_in_order(slots.drop_last()) + slots.last().in_order()
    }
}

/// The listed cells with the first occurrence of `id` in document order replaced by `new`.
pub open spec fn replace_in<C, W>(slots: Seq<Cell<C, W>>, id: SlotId, new: Cell<C, W>) -> Seq<
    Cell<C, W>,
>
    decreases slots,
{
    if slots.len() == 0 {
        slots
    } else if first_match(cells_in_order(slots.drop_last()), id) is Some {
        replace_in(slots.drop_last(), id, new).push(slots.last())
    } else {
        slots.drop_last().push(slots.last().replace(id, new))
    }
}

/// The first of the listed cells that `id` identifies.
pub open spec fn first_match<C, W>(list: Seq<Cell<C, W>>, id: SlotId) -> Option<Cell<C, W>>
    decreases list.len(),
{
    if list.len() == 0 {
        None
    } else if list[0].id == id {
        Some(list[0])
    } else {
        first_match(list.drop_first(), id)
    }
}

/// Searching a concatenation searches the first part, then the second.
pub proof fn lemma_first_match_concat<C, W>(a: Seq<Cell<C, W>>, b: Seq<Cell<C, W>>, id: SlotId)
    ensures
        first_match(a + b, id) == match first_match(a, id) {
            Some(c) => Some(c),
            None => first_match(b, id),
        },
    decreases a.len(),
{
    if a.len() == 0 {
        assert(a + b =~= b);
    } else {
        assert((a + b)[0] == a[0]);
        assert((a + b).drop_first() =~= a.drop_first() + b);
        lemma_first_match_concat(a.drop_first(), b, id);
    }
}

/// What a search gives has the identity that is sought.
pub proof fn lemma_match_has_id<C, W>(list: Seq<Cell<C, W>>, id: SlotId)
    ensures
        first_match(list, id) matches Some(c) ==> c.id == id,
    decreases list.len(),
{
    if list.len() > 0 && list[0].id != id {
        lemma_match_has_id(list.drop_first(), id);
    }
}

/// The cells of the listed slots are theirs, one for one.
pub proof fn lemma_cells<C, W>(slots: Seq<Slot<C, W>>)
    ensures
        cells(slots).len() == slots.len(),
        forall|i: int| 0 <= i < slots.len() ==> #[trigger] cells(slots)[i] == slots[i].view(),
    decreases slots.len(),
{
    if slots.len() > 0 {
        lemma_cells(slots.drop_last());
    }
}

proof fn lemma_cells_update<C, W>(slots: Seq<Slot<C, W>>, k: int)
    requires
        0 <= k < slots.len(),
    ensures
        forall|s: Slot<C, W>| #[trigger]
            cells(slots.update(k, s)) == cells(slots).update(k, s@),
{
    assert forall|s: Slot<C, W>| #[trigger]
        cells(slots.update(k, s)) == cells(slots).update(k, s@) by {
        lemma_cells(slots);
        lemma_cells(slots.update(k, s));
        assert(cells(slots.update(k, s)) =~= cells(slots).update(k, s@));
    }
}

/// A match within the cell at `k`, with none before it, is the match of the whole list; replacing
/// it replaces it there and leaves every other cell of the list as it is.
pub proof fn lemma_match_at<C, W>(list: Seq<Cell<C, W>>, k: int, id: SlotId)
    requires
        0 <= k < list.len(),
        first_match(cells_in_order(list.take(k)), id) is None,
        first_match(list[k].in_order(), id) is Some,
    ensures
        first_match(cells_in_order(list), id) == first_match(list[k].in_order(), id),
        forall|new: Cell<C, W>| #[trigger]
            replace_in(list, id, new) == list.update(k, list[k].replace(id, new)),
    decreases list.len(),
{
    let init = list.drop_last();
    lemma_first_match_concat(cells_in_order(init), list.last().in_order(), id);
    if k == list.len() - 1 {
        assert(list.take(k) =~= init);
        assert forall|new: Cell<C, W>| #[trigger]
            replace_in(list, id, new) == list.update(k, list[k].replace(id, new)) by {
            assert(init.push(list.last().replace(id, new)) =~= list.update(
                k,
                list[k].replace(id, new),
            ));
        }
    } else {
        assert(init.take(k) =~= list.take(k));
        lemma_match_at(init, k, id);
        assert forall|new: Cell<C, W>| #[trigger]
            replace_in(list, id, new) == list.update(k, list[k].replace(id, new)) by {
            assert(replace_in(init, id, new) == init.update(k, init[k].replace(id, new)));
            assert(init.update(k, init[k].replace(id, new)).push(list.last()) =~= list.update(
                k,
                list[k].replace(id, new),
            ));
        }
    }
}

/// No match before or within the cell at `k` is no match up to and with it.
proof fn lemma_match_step<C, W>(list: Seq<Cell<C, W>>, k: int, id: SlotId)
    requires
        0 <= k < list.len(),
    ensures
        first_match(cells_in_order(list.take(k + 1)), id) == match first_match(
            cells_in_order(list.take(k)),
            id,
        ) {
            Some(c) => Some(c),
            None => first_match(list[k].in_order(), id),
        },
{
    assert(list.take(k + 1).drop_last() =~= list.take(k));
    lemma_first_match_concat(cells_in_order(list.take(k)), list[k].in_order(), id);
}

/// A match within a cell is the cell itself, else the match within its content.
pub proof fn lemma_match_in_cell<C, W>(c: Cell<C, W>, id: SlotId)
    ensures
        first_match(c.in_order(), id) == if c.id == id {
            Some(c)
        } else {
            match c.content {
                Some(inner) => first_match(inner.in_order(), id),
                None => None,
            }
        },
{
    reveal_with_fuel(first_match, 2);
    if c.content is Some {
        let rest = c.content.unwrap().in_order();
        assert((seq![c] + rest).drop_first() =~= rest);
    } else {
        assert(seq![c].drop_first() =~= Seq::<Cell<C, W>>::empty());
    }
}

impl<C, W> Slot<C, W> {
    /// Depth-first search for slot `id` in this slot and its content.
    fn find(&self, id: SlotId) -> (r: Option<&Slot<C, W>>)
        ensures
            match r {
                Some(s) => first_match(self@.in_order(), id) == Some(s@),
                None => first_match(self@.in_order(), id) is None,
            },
        decreases self,
    {
        proof {
            lemma_match_in_cell(self@, id);
        }
        if self.id == id {
            return Some(self);
        }
        match &self.content {
            Some(inner) => inner.find(id),
            None => None,
        }
    }
}

/// Depth-first search for slot `id` in the listed slots: the position of the slot that is,
/// or holds within it, slot `id`, and what was found there.
fn find_in<C, W>(slots: &Vec<Slot<C, W>>, id: SlotId) -> (r: Option<(usize, &Slot<C, W>)>)
    ensures
        match r {
            Some((k, s)) => k < slots.len() && first_match(
                cells_in_order(cells(slots@).take(k as int)),
                id,
            ) is None && first_match(slots[k as int]@.in_order(), id) == Some(s@) && first_match(
                cells_in_order(cells(slots@)),
                id,
            ) == Some(s@),
            None => first_match(cells_in_order(cells(slots@)), id) is None,
        },
    decreases slots,
{
    proof {
        lemma_cells(slots@);
        assert(cells(slots@).take(0) =~= Seq::empty());
    }
    let mut k: usize = 0;
    while k < slots.len()
        invariant
            k <= slots.len(),
            cells(slots@).len() == slots.len(),
            forall|i: int| 0 <= i < slots.len() ==> #[trigger] cells(slots@)[i] == slots[i]@,
            first_match(cells_in_order(cells(slots@).take(k as int)), id) is None,
        decreases slots.len() - k,
    {
        proof {
            lemma_match_step(cells(slots@), k as int, id);
        }
        if let Some(s) = slots[k].find(id) {
            proof {
                lemma_match_at(cells(slots@), k as int, id);
            }
            return Some((k, s));
        }
        k = k + 1;
    }
    assert(cells(slots@).take(slots@.len() as int) =~= cells(slots@));
    None
}

impl<C, W> Slot<C, W> {
    /// Mutable form of `Slot::find`.
    fn find_mut(&mut self, id: SlotId) -> (r: Option<&mut Slot<C, W>>)
        ensures
            match r {
                Some(s) => first_match(old(self)@.in_order(), id) == Some(s@) && final(self)@
                    == old(self)@.replace(id, final(s)@),
                None => first_match(old(self)@.in_order(), id) is None && *final(self)
                    == *old(self),
            },
        decreases *old(self),
    {
        proof {
            lemma_match_in_cell(self@, id);
        }
        if self.id == id {
            return Some(self);
        }
        match &mut self.content {
            Some(inner) => inner.find_mut(id),
            None => None,
        }
    }
}

/// Mutable form of `find_in`.
fn find_in_mut<C, W>(slots: &mut Vec<Slot<C, W>>, id: SlotId) -> (r: Option<&mut Slot<C, W>>)
    ensures
        match r {
            Some(s) => first_match(cells_in_order(cells(old(slots)@)), id) == Some(s@) && cells(
                final(slots)@,
            ) == replace_in(cells(old(slots)@), id, final(s)@),
            None => first_match(cells_in_order(cells(old(slots)@)), id) is None && *final(slots)
                == *old(slots),
        },
    decreases *old(slots),
{
    let hit: Option<usize> = match find_in(slots, id) {
        Some((k, _)) => Some(k),
        None => None,
    };
    match hit {
        Some(k) => {
            proof {
                lemma_cells(slots@);
                lemma_match_at(cells(slots@), k as int, id);
                lemma_cells_update(slots@, k as int);
            }
            slots[k].find_mut(id)
        },
        None => None,
    }
}

impl<C, W> Viewport<C, W> {
    /// Depth-first search for slot `id` (matches container slots too).
    pub fn find(&self, id: SlotId) -> (r: Option<&Slot<C, W>>)
        ensures
            match r {
                Some(s) => first_match(self@.in_order(), id) == Some(s@),
                None => first_match(self@.in_order(), id) is None,
            },
            r matches Some(s) ==> s.id == id,
        decreases self,
    {
        proof {
            lemma_match_has_id(self@.in_order(), id);
        }
        match self {
            Viewport::Slots { slots, .. } => match find_in(slots, id) {
                Some((_, s)) => Some(s),
                None => None,
            },
            Viewport::Floating { inner, .. } => inner.find(id),
        }
    }

    /// Mutable form of [`Viewport::find`]: what is written through the result replaces the
    /// slot found, and nothing else of the tree changes.
    pub fn find_mut(&mut self, id: SlotId) -> (r: Option<&mut Slot<C, W>>)
        ensures
            match r {
                Some(s) => first_match(old(self)@.in_order(), id) == Some(s@) && final(self)@
                    == old(self)@.replace(id, final(s)@),
                None => first_match(old(self)@.in_order(), id) is None && *final(self)
                    == *old(self),
            },
        decreases *old(self),
    {
        match self {
            Viewport::Slots { slots, .. } => find_in_mut(slots, id),
            Viewport::Floating { inner, .. } => inner.find_mut(id),
        }
    }

    /// First leaf in document order (the always-present fallback).
    pub fn first_leaf(&self) -> (r: &Slot<C, W>)
        requires
            self@.has_leaf(),
        ensures
            r@ == self@.first_leaf(),
        decreases self,
    {
        match self {
            Viewport::Slots { slots, .. } => {
                proof {
                    lemma_cells(slots@);
                }
                match &slots[0].content {
                    Some(inner) => inner.first_leaf(),
                    None => &slots[0],
                }
            },
            Viewport::Floating { inner, .. } => inner.first_leaf(),
        }
    }
}

/// The viewports of one world.
pub struct Viewports<C, W> {
    pub root: Viewport<C, W>,
    /// Detached panes overlaid on `root` (drawn on top); each a `Floating`.
    pub floating: Vec<Viewport<C, W>>,
    /// Keyboard-shortcut target (split/detach), set by clicking a pane.
    pub active: SlotId,
    /// Pane under the cursor: operative for all pointer input.
    pub pointer: SlotId,
    pub next_id: SlotId,
    /// Windows visible per leaf slot (refreshed each render, transient): drives per-window
    /// fractional scale.
    pub visible: HashMap<SlotId, Vec<uuid::Uuid>>,
}

/// The trees that the listed viewports represent, in order.
pub open spec fn trees<C, W>(panes: Seq<Viewport<C, W>>) -> Seq<Tree<C, W>> {
    panes.map_values(|v: Viewport<C, W>| v@)
}

/// Every cell of the listed trees, tree after tree, each in document order.
pub open spec fn forest_in_order<C, W>(panes: Seq<Tree<C, W>>) -> Seq<Cell<C, W>>
    decreases panes.len(),
{
    if panes.len() == 0 {
        Seq::empty()
    } else {
        forest_in_order(panes.drop_last()) + panes.last().in_order()
    }
}

/// The listed trees with the first cell identified by `id` replaced by `new`.
pub open spec fn replace_in_forest<C, W>(
    panes: Seq<Tree<C, W>>,
    id: SlotId,
    new: Cell<C, W>,
) -> Seq<Tree<C, W>>
    decreases panes.len(),
{
    if panes.len() == 0 {
        panes
    } else if first_match(forest_in_order(panes.drop_last()), id) is Some {
        replace_in_forest(panes.drop_last(), id, new).push(panes.last())
    } else {
        panes.drop_last().push(panes.last().replace(id, new))
    }
}

/// A match within the pane at `k`, with none before it, is the match of them all; replacing it
/// replaces it there and leaves every other pane as it is.
pub proof fn lemma_forest_match_at<C, W>(list: Seq<Tree<C, W>>, k: int, id: SlotId)
    requires
        0 <= k < list.len(),
        first_match(forest_in_order(list.take(k)), id) is None,
        first_match(list[k].in_order(), id) is Some,
    ensures
        first_match(forest_in_order(list), id) == first_match(list[k].in_order(), id),
        forall|new: Cell<C, W>| #[trigger]
            replace_in_forest(list, id, new) == list.update(k, list[k].replace(id, new)),
    decreases list.len(),
{
    let init = list.drop_last();
    lemma_first_match_concat(forest_in_order(init), list.last().in_order(), id);
    if k == list.len() - 1 {
        assert(list.take(k) =~= init);
        assert forall|new: Cell<C, W>| #[trigger]
            replace_in_forest(list, id, new) == list.update(k, list[k].replace(id, new)) by {
            assert(init.push(list.last().replace(id, new)) =~= list.update(
                k,
                list[k].replace(id, new),
            ));
        }
    } else {
        assert(init.take(k) =~= list.take(k));
        lemma_forest_match_at(init, k, id);
        assert forall|new: Cell<C, W>| #[trigger]
            replace_in_forest(list, id, new) == list.update(k, list[k].replace(id, new)) by {
            assert(replace_in_forest(init, id, new) == init.update(k, init[k].replace(id, new)));
            assert(init.update(k, init[k].replace(id, new)).push(list.last()) =~= list.update(
                k,
                list[k].replace(id, new),
            ));
        }
    }
}

proof fn lemma_forest_match_step<C, W>(list: Seq<Tree<C, W>>, k: int, id: SlotId)
    requires
        0 <= k < list.len(),
    ensures
        first_match(forest_in_order(list.take(k + 1)), id) == match first_match(
            forest_in_order(list.take(k)),
            id,
        ) {
            Some(c) => Some(c),
            None => first_match(list[k].in_order(), id),
        },
{
    assert(list.take(k + 1).drop_last() =~= list.take(k));
    lemma_first_match_concat(forest_in_order(list.take(k)), list[k].in_order(), id);
}

impl<C, W> Viewports<C, W> {
    /// Every pane: the root, then the floating ones.
    pub open spec fn panes(&self) -> Seq<Tree<C, W>> {
        seq![self.root@] + trees(self.floating@)
    }

    /// Every slot of every pane, in search order.
    pub open spec fn in_order(&self) -> Seq<Cell<C, W>> {
        forest_in_order(self.panes())
    }

    /// Whether everything but the panes is the same.
    pub open spec fn same_but_panes(&self, other: &Self) -> bool {
        &&& self.active == other.active
        &&& self.pointer == other.pointer
        &&& self.next_id == other.next_id
        &&& self.visible == other.visible
    }

    /// Whether a fallback leaf is there for a stale `pointer`.
    pub open spec fn has_focus(&self) -> bool {
        first_match(self.in_order(), self.pointer) is Some || self.root@.has_leaf()
    }

    /// The slot that pointer input reads: the one under the cursor, else the first leaf.
    pub open spec fn focus_cell(&self) -> Cell<C, W> {
        match first_match(self.in_order(), self.pointer) {
            Some(c) => c,
            None => self.root@.first_leaf(),
        }
    }

    /// The viewports of a new world: one slot over the whole output.
    pub fn single(camera: C, weight: W) -> (r: Self)
        ensures
            r.root@ == (Tree::Slots {
                axis: Axis::Vertical,
                slots: seq![Cell { id: 0, camera, content: None, weight }],
            }),
            r.floating.len() == 0,
            r.active == 0,
            r.pointer == 0,
            r.next_id == 1,
            r.visible@ == Map::<SlotId, Vec<uuid::Uuid>>::empty(),
            r.in_order() == seq![Cell { id: 0, camera, content: None, weight }],
            r.has_focus(),
    {
        let slot = Slot { id: 0, camera, content: None, weight };
        let ghost cell = slot@;
        let mut slots: Vec<Slot<C, W>> = Vec::new();
        slots.push(slot);
        proof {
            lemma_cells(slots@);
            assert(cells(slots@) =~= seq![cell]);
        }
        let new = Viewports {
            root: Viewport::Slots { axis: Axis::Vertical, slots },
            floating: Vec::new(),
            active: 0,
            pointer: 0,
            next_id: 1,
            visible: HashMap::new(),
        };
        proof {
            assert(cells_in_order(seq![cell].drop_last()) =~= Seq::empty());
            assert(cell.in_order() =~= seq![cell]);
            assert(cells_in_order(seq![cell]) =~= seq![cell]);
            assert(forest_in_order(new.panes().drop_last()) =~= Seq::empty());
            assert(new.in_order() =~= seq![cell]);
        }
        new
    }

    /// The slot with `id`, searched across the root AND floating panes.
    pub(crate) fn slot_of(&self, id: SlotId) -> (r: Option<&Slot<C, W>>)
        ensures
            match r {
                Some(s) => first_match(self.in_order(), id) == Some(s@),
                None => first_match(self.in_order(), id) is None,
            },
    {
        proof {
            assert(self.panes().take(0) =~= Seq::empty());
            lemma_forest_match_step(self.panes(), 0, id);
        }
        if let Some(s) = self.root.find(id) {
            proof {
                lemma_forest_match_at(self.panes(), 0, id);
            }
            return Some(s);
        }
        let mut k: usize = 0;
        while k < self.floating.len()
            invariant
                k <= self.floating.len(),
                first_match(forest_in_order(self.panes().take(k + 1)), id) is None,
            decreases self.floating.len() - k,
        {
            proof {
                lemma_forest_match_step(self.panes(), k + 1, id);
            }
            if let Some(s) = self.floating[k].find(id) {
                proof {
                    lemma_forest_match_at(self.panes(), k + 1, id);
                }
                return Some(s);
            }
            k = k + 1;
        }
        assert(self.panes().take(self.floating.len() + 1) =~= self.panes());
        None
    }

    /// Mutable form of `Viewports::slot_of`: what is written through the result replaces the
    /// slot found, and nothing else of any pane changes.
    pub(crate) fn slot_of_mut(&mut self, id: SlotId) -> (r: Option<&mut Slot<C, W>>)
        ensures
            match r {
                Some(s) => first_match(old(self).in_order(), id) == Some(s@) && final(self).panes()
                    == replace_in_forest(old(self).panes(), id, final(s)@)
                    && final(self).same_but_panes(old(self)),
                None => first_match(old(self).in_order(), id) is None && *final(self)
                    == *old(self),
            },
    {
        proof {
            assert(self.panes().take(0) =~= Seq::empty());
            lemma_forest_match_step(self.panes(), 0, id);
        }
        if self.root.find(id).is_some() {
            proof {
                lemma_forest_match_at(self.panes(), 0, id);
                assert forall|t: Tree<C, W>| #[trigger]
                    (seq![t] + trees(self.floating@)) == self.panes().update(0, t) by {
                    assert(seq![t] + trees(self.floating@) =~= self.panes().update(0, t));
                }
            }
            return self.root.find_mut(id);
        }
        let mut k: usize = 0;
        while k < self.floating.len()
            invariant
                *self == *old(self),
                k <= self.floating.len(),
                first_match(forest_in_order(self.panes().take(k + 1)), id) is None,
            decreases self.floating.len() - k,
        {
            proof {
                lemma_forest_match_step(self.panes(), k + 1, id);
            }
            if self.floating[k].find(id).is_some() {
                proof {
                    lemma_forest_match_at(self.panes(), k + 1, id);
                    assert forall|v: Viewport<C, W>| #[trigger]
                        (seq![self.root@] + trees(self.floating@.update(k as int, v)))
                            == self.panes().update(k + 1, v@) by {
                        assert(seq![self.root@] + trees(self.floating@.update(k as int, v))
                            =~= self.panes().update(k + 1, v@));
                    }
                }
                return self.floating[k].find_mut(id);
            }
            k = k + 1;
        }
        assert(self.panes().take(self.floating.len() + 1) =~= self.panes());
        None
    }

    /// Camera of the slot with `id`, searched across the root AND floating panes.
    pub fn camera_of(&self, id: SlotId) -> (r: Option<&C>)
        ensures
            match r {
                Some(c) => first_match(self.in_order(), id) matches Some(cell) && cell.camera
                    == *c,
                None => first_match(self.in_order(), id) is None,
            },
    {
        match self.slot_of(id) {
            Some(s) => Some(&s.camera),
            None => None,
        }
    }

    /// Mutable form of [`Viewports::camera_of`].
    pub fn camera_of_mut(&mut self, id: SlotId) -> (r: Option<&mut C>)
        ensures
            match r {
                Some(c) => first_match(old(self).in_order(), id) matches Some(cell) && cell.camera
                    == *c && final(self).panes() == replace_in_forest(
                    old(self).panes(),
                    id,
                    Cell { camera: *final(c), ..cell },
                ) && final(self).same_but_panes(old(self)),
                None => first_match(old(self).in_order(), id) is None && *final(self)
                    == *old(self),
            },
    {
        match self.slot_of_mut(id) {
            Some(s) => Some(&mut s.camera),
            None => None,
        }
    }

    /// Operative camera (pane under the cursor, `pointer`; first leaf if stale).
    pub fn focus_camera(&self) -> (r: &C)
        requires
            self.has_focus(),
        ensures
            *r == self.focus_cell().camera,
    {
        match self.camera_of(self.pointer) {
            Some(c) => c,
            None => &self.root.first_leaf().camera,
        }
    }

    /// The identity through which pointer input writes: that of the slot under the cursor,
    /// else that of the first leaf.
    pub open spec fn focus_id(&self) -> SlotId {
        match first_match(self.in_order(), self.pointer) {
            Some(_) => self.pointer,
            None => self.root@.first_leaf().id,
        }
    }

    /// Mutable form of [`Viewports::focus_camera`]: the camera of the first slot identified by
    /// `focus_id`.
    pub fn focus_camera_mut(&mut self) -> (r: &mut C)
        requires
            old(self).has_focus(),
        ensures
            first_match(old(self).in_order(), old(self).focus_id()) matches Some(cell)
                && cell.camera == *r && final(self).panes() == replace_in_forest(
                old(self).panes(),
                old(self).focus_id(),
                Cell { camera: *final(r), ..cell },
            ) && final(self).same_but_panes(old(self)),
    {
        let id: SlotId = if self.camera_of(self.pointer).is_some() {
            self.pointer
        } else {
            self.root.first_leaf().id
        };
        proof {
            if first_match(self.in_order(), self.pointer) is None {
                lemma_first_leaf_resolves(self);
            }
        }
        self.camera_of_mut(id).unwrap()
    }
}

/// The root's first leaf is found by its own identity.
pub proof fn lemma_first_leaf_resolves<C, W>(v: &Viewports<C, W>)
    requires
        v.root@.has_leaf(),
    ensures
        first_match(v.in_order(), v.root@.first_leaf().id) is Some,
{
    let id = v.root@.first_leaf().id;
    lemma_first_leaf_listed(v.root@);
    lemma_root_listed_first(v.panes());
    let rest = choose|rest: Seq<Cell<C, W>>| v.in_order() == v.root@.in_order() + rest;
    lemma_first_match_concat(v.root@.in_order(), rest, id);
}

/// The cells of the first pane are listed before all others.
pub proof fn lemma_root_listed_first<C, W>(panes: Seq<Tree<C, W>>)
    requires
        panes.len() > 0,
    ensures
        exists|rest: Seq<Cell<C, W>>| forest_in_order(panes) == #[trigger] (panes[0].in_order()
            + rest),
    decreases panes.len(),
{
    let first = panes[0].in_order();
    if panes.len() == 1 {
        assert(forest_in_order(panes.drop_last()) =~= Seq::empty());
        assert(forest_in_order(panes) =~= first + Seq::<Cell<C, W>>::empty());
    } else {
        lemma_root_listed_first(panes.drop_last());
        let rest = choose|rest: Seq<Cell<C, W>>|
            forest_in_order(panes.drop_last()) == #[trigger] (first + rest);
        assert(forest_in_order(panes) =~= first + (rest + panes.last().in_order()));
    }
}

/// A tree that has a leaf lists its first leaf, as the first cell in document order that holds
/// no content.
pub proof fn lemma_first_leaf_listed<C, W>(t: Tree<C, W>)
    requires
        t.has_leaf(),
    ensures
        first_match(t.in_order(), t.first_leaf().id) is Some,
        t.first_leaf().content is None,
        exists|i: int|
            0 <= i < t.in_order().len() && #[trigger] t.in_order()[i] == t.first_leaf() && forall|
                j: int,
            |
                0 <= j < i ==> (#[trigger] t.in_order()[j]).content is Some,
    decreases t,
{
    let id = t.first_leaf().id;
    match t {
        Tree::Slots { slots, .. } => {
            lemma_first_cell_listed_first(slots);
            let rest = choose|rest: Seq<Cell<C, W>>|
                cells_in_order(slots) == #[trigger] (slots[0].in_order() + rest);
            lemma_first_match_concat(slots[0].in_order(), rest, id);
            lemma_match_in_cell(slots[0], id);
            match slots[0].content {
                Some(inner) => {
                    lemma_first_leaf_listed(*inner);
                    let i = choose|i: int|
                        0 <= i < inner.in_order().len() && #[trigger] inner.in_order()[i]
                            == inner.first_leaf() && forall|j: int|
                            0 <= j < i ==> (#[trigger] inner.in_order()[j]).content is Some;
                    assert(t.in_order()[i + 1] == t.first_leaf());
                    assert forall|j: int| 0 <= j < i + 1 implies (
                    #[trigger] t.in_order()[j]).content is Some by {
                        if j > 0 {
                            assert(t.in_order()[j] == inner.in_order()[j - 1]);
                        }
                    }
                },
                None => {
                    assert(t.in_order()[0] == t.first_leaf());
                },
            }
        },
        Tree::Floating { inner, .. } => {
            lemma_first_leaf_listed(*inner);
        },
    }
}

proof fn lemma_first_cell_listed_first<C, W>(slots: Seq<Cell<C, W>>)
    requires
        slots.len() > 0,
    ensures
        exists|rest: Seq<Cell<C, W>>| cells_in_order(slots) == #[trigger] (slots[0].in_order()
            + rest),
    decreases slots.len(),
{
    let first = slots[0].in_order();
    if slots.len() == 1 {
        assert(cells_in_order(slots.drop_last()) =~= Seq::empty());
        assert(cells_in_order(slots) =~= first + Seq::<Cell<C, W>>::empty());
    } else {
        lemma_first_cell_listed_first(slots.drop_last());
        let rest = choose|rest: Seq<Cell<C, W>>|
            cells_in_order(slots.drop_last()) == #[trigger] (first + rest);
        assert(cells_in_order(slots) =~= first + (rest + slots.last().in_order()));
    }
}

} // verus!
