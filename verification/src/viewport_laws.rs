//! What holds of the viewport tree across its operations.
use vstd::prelude::*;

use crate::viewport::{
    cells_in_order, first_match, forest_in_order, lemma_cells, lemma_first_leaf_listed,
    lemma_first_match_concat, lemma_match_in_cell, lemma_root_listed_first, replace_in,
    replace_in_forest, Axis, Cell, Slot, SlotId, Tree, Viewport, Viewports,
};

verus! {

/// A cell without its content: what it says of itself, and whether it holds content.
#[verifier::ext_equal]
pub struct Label<C, W> {
    pub id: SlotId,
    pub camera: C,
    pub weight: W,
    pub container: bool,
}

impl<C, W> Cell<C, W> {
    /// The cell without its content.
    pub open spec fn label(self) -> Label<C, W> {
        Label {
            id: self.id,
            camera: self.camera,
            weight: self.weight,
            container: self.content is Some,
        }
    }
}

/// The listed cells without their contents.
pub open spec fn labels<C, W>(list: Seq<Cell<C, W>>) -> Seq<Label<C, W>> {
    list.map_values(|c: Cell<C, W>| c.label())
}

/// Whether no identity occurs twice among the listed cells.
pub open spec fn distinct_ids<C, W>(list: Seq<Cell<C, W>>) -> bool {
    forall|i: int, j: int|
        0 <= i < j < list.len() ==> (#[trigger] list[i]).id != (#[trigger] list[j]).id
}

/// Where the first cell identified by `id` stands; the length of the list if there is none.
pub open spec fn match_index<C, W>(list: Seq<Cell<C, W>>, id: SlotId) -> int
    decreases list.len(),
{
    if list.len() == 0 || list[0].id == id {
        0
    } else {
        1 + match_index(list.drop_first(), id)
    }
}

/// A search gives the cell that `id` identifies with none so identified before it, and gives
/// nothing exactly if no listed cell is so identified.
pub proof fn lemma_first_match_is_first<C, W>(list: Seq<Cell<C, W>>, id: SlotId)
    ensures
        0 <= match_index(list, id) <= list.len(),
        forall|j: int| 0 <= j < match_index(list, id) ==> (#[trigger] list[j]).id != id,
        match_index(list, id) < list.len() ==> list[match_index(list, id)].id == id,
        first_match(list, id) == if match_index(list, id) < list.len() {
            Some(list[match_index(list, id)])
        } else {
            None
        },
    decreases list.len(),
{
    if list.len() > 0 && list[0].id != id {
        lemma_first_match_is_first(list.drop_first(), id);
        assert forall|j: int| 0 <= j < match_index(list, id) implies (#[trigger] list[j]).id
            != id by {
            if j > 0 {
                assert(list[j] == list.drop_first()[j - 1]);
            }
        }
    }
}

proof fn lemma_match_index_concat<C, W>(a: Seq<Cell<C, W>>, b: Seq<Cell<C, W>>, id: SlotId)
    ensures
        match_index(a + b, id) == if first_match(a, id) is Some {
            match_index(a, id)
        } else {
            a.len() + match_index(b, id)
        },
    decreases a.len(),
{
    if a.len() == 0 {
        assert(a + b =~= b);
    } else {
        assert((a + b).drop_first() =~= a.drop_first() + b);
        lemma_match_index_concat(a.drop_first(), b, id);
    }
}

proof fn lemma_labels_concat<C, W>(a: Seq<Cell<C, W>>, b: Seq<Cell<C, W>>)
    ensures
        labels(a + b) == labels(a) + labels(b),
{
    assert(labels(a + b) =~= labels(a) + labels(b));
}

proof fn lemma_cell_replace<C, W>(c: Cell<C, W>, id: SlotId, new: Cell<C, W>)
    requires
        first_match(c.in_order(), id) matches Some(old_cell) && old_cell.content == new.content,
    ensures
        labels(c.replace(id, new).in_order()) == labels(c.in_order()).update(
            match_index(c.in_order(), id),
            new.label(),
        ),
    decreases c,
{
    lemma_match_in_cell(c, id);
    lemma_first_match_is_first(c.in_order(), id);
    if c.id == id {
        match c.content {
            Some(inner) => {
                lemma_labels_concat(seq![c], inner.in_order());
                lemma_labels_concat(seq![new], inner.in_order());
            },
            None => {},
        }
        assert(labels(new.in_order()) =~= labels(c.in_order()).update(0, new.label()));
    } else {
        let inner = c.content.unwrap();
        let c2 = c.replace(id, new);
        lemma_tree_replace(*inner, id, new);
        lemma_first_match_is_first(inner.in_order(), id);
        lemma_labels_concat(seq![c], inner.in_order());
        lemma_labels_concat(seq![c2], inner.replace(id, new).in_order());
        assert((seq![c] + inner.in_order()).drop_first() =~= inner.in_order());
        assert(labels(c2.in_order()) =~= labels(c.in_order()).update(
            1 + match_index(inner.in_order(), id),
            new.label(),
        ));
    }
}

proof fn lemma_cells_replace<C, W>(list: Seq<Cell<C, W>>, id: SlotId, new: Cell<C, W>)
    requires
        first_match(cells_in_order(list), id) matches Some(old_cell) && old_cell.content
            == new.content,
    ensures
        labels(cells_in_order(replace_in(list, id, new))) == labels(cells_in_order(list)).update(
            match_index(cells_in_order(list), id),
            new.label(),
        ),
    decreases list,
{
    let init = list.drop_last();
    let last = list.last();
    let head = cells_in_order(init);
    lemma_first_match_concat(head, last.in_order(), id);
    lemma_match_index_concat(head, last.in_order(), id);
    lemma_labels_concat(head, last.in_order());
    lemma_first_match_is_first(head, id);
    lemma_first_match_is_first(last.in_order(), id);
    if first_match(head, id) is Some {
        lemma_cells_replace(init, id, new);
        let init2 = replace_in(init, id, new);
        assert(init2.push(last).drop_last() =~= init2);
        lemma_labels_concat(cells_in_order(init2), last.in_order());
    } else {
        lemma_cell_replace(last, id, new);
        let last2 = last.replace(id, new);
        assert(init.push(last2).drop_last() =~= init);
        lemma_labels_concat(head, last2.in_order());
    }
    assert(labels(cells_in_order(replace_in(list, id, new))) =~= labels(cells_in_order(list)).update(
        match_index(cells_in_order(list), id),
        new.label(),
    ));
}

/// Replacing a cell by one with the same content changes that one cell's own data and leaves
/// every other cell's, and the order of all of them, as it was.
pub proof fn lemma_tree_replace<C, W>(t: Tree<C, W>, id: SlotId, new: Cell<C, W>)
    requires
        first_match(t.in_order(), id) matches Some(old_cell) && old_cell.content == new.content,
    ensures
        labels(t.replace(id, new).in_order()) == labels(t.in_order()).update(
            match_index(t.in_order(), id),
            new.label(),
        ),
    decreases t,
{
    match t {
        Tree::Slots { slots, .. } => lemma_cells_replace(slots, id, new),
        Tree::Floating { inner, .. } => lemma_tree_replace(*inner, id, new),
    }
}

/// The same over several panes.
pub proof fn lemma_forest_replace<C, W>(list: Seq<Tree<C, W>>, id: SlotId, new: Cell<C, W>)
    requires
        first_match(forest_in_order(list), id) matches Some(old_cell) && old_cell.content
            == new.content,
    ensures
        labels(forest_in_order(replace_in_forest(list, id, new))) == labels(
            forest_in_order(list),
        ).update(match_index(forest_in_order(list), id), new.label()),
    decreases list.len(),
{
    let init = list.drop_last();
    let last = list.last();
    let head = forest_in_order(init);
    lemma_first_match_concat(head, last.in_order(), id);
    lemma_match_index_concat(head, last.in_order(), id);
    lemma_labels_concat(head, last.in_order());
    lemma_first_match_is_first(head, id);
    lemma_first_match_is_first(last.in_order(), id);
    if first_match(head, id) is Some {
        lemma_forest_replace(init, id, new);
        let init2 = replace_in_forest(init, id, new);
        assert(init2.push(last).drop_last() =~= init2);
        lemma_labels_concat(forest_in_order(init2), last.in_order());
    } else {
        lemma_tree_replace(last, id, new);
        let last2 = last.replace(id, new);
        assert(init.push(last2).drop_last() =~= init);
        lemma_labels_concat(head, last2.in_order());
    }
    assert(labels(forest_in_order(replace_in_forest(list, id, new))) =~= labels(
        forest_in_order(list),
    ).update(match_index(forest_in_order(list), id), new.label()));
}

/// Lists of the same identities, in the same order, find each at the same place.
pub proof fn lemma_match_index_by_labels<C, W>(a: Seq<Cell<C, W>>, b: Seq<Cell<C, W>>, id: SlotId)
    requires
        a.len() == b.len(),
        forall|i: int| 0 <= i < a.len() ==> (#[trigger] a[i]).id == (#[trigger] b[i]).id,
    ensures
        match_index(a, id) == match_index(b, id),
    decreases a.len(),
{
    if a.len() > 0 {
        assert(a[0].id == b[0].id);
        let (x, y) = (a.drop_first(), b.drop_first());
        assert forall|i: int| 0 <= i < x.len() implies (#[trigger] x[i]).id == (
        #[trigger] y[i]).id by {
            assert(a[i + 1].id == b[i + 1].id);
        }
        lemma_match_index_by_labels(x, y, id);
    }
}

/// What is written through `camera_of_mut(id)` is what `camera_of(id)` then reads, and every
/// other identity keeps its camera (and is found exactly if it was found).
pub proof fn lemma_camera_write_read<C, W>(
    before: Seq<Tree<C, W>>,
    id: SlotId,
    camera: C,
    other: SlotId,
)
    requires
        first_match(forest_in_order(before), id) is Some,
    ensures
        ({
            let cell = first_match(forest_in_order(before), id).unwrap();
            let after = replace_in_forest(before, id, Cell { camera, ..cell });
            &&& first_match(forest_in_order(after), id) matches Some(c) && c.camera == camera
                && c.weight == cell.weight
            &&& other != id ==> match first_match(forest_in_order(after), other) {
                Some(c) => first_match(forest_in_order(before), other) matches Some(b) && c.label()
                    == b.label() && c.id == b.id && c.camera == b.camera && c.weight == b.weight && (
                c.content is Some <==> b.content is Some),
                None => first_match(forest_in_order(before), other) is None,
            }
        }),
{
    let cell = first_match(forest_in_order(before), id).unwrap();
    let new = Cell { camera, ..cell };
    let after = replace_in_forest(before, id, new);
    let (a, b) = (forest_in_order(after), forest_in_order(before));
    lemma_forest_replace(before, id, new);
    lemma_first_match_is_first(b, id);
    let k = match_index(b, id);
    assert(labels(a) == labels(b).update(k, new.label()));
    assert(a.len() == labels(a).len() && b.len() == labels(b).len());
    assert forall|i: int| 0 <= i < a.len() implies (#[trigger] a[i]).id == (#[trigger] b[i]).id by {
        assert(labels(a)[i] == a[i].label());
        assert(labels(b)[i] == b[i].label());
    }
    lemma_match_index_by_labels(a, b, id);
    lemma_match_index_by_labels(a, b, other);
    lemma_first_match_is_first(a, id);
    lemma_first_match_is_first(a, other);
    lemma_first_match_is_first(b, other);
    assert(labels(a)[k] == a[k].label());
    let m = match_index(b, other);
    if other != id && m < b.len() {
        assert(labels(a)[m] == a[m].label());
        assert(labels(b)[m] == b[m].label());
    }
}

/// Whether the slot that pointer input falls back to is found by its identity: either the pane
/// under the cursor is there, or no container above the first leaf has the leaf's identity.
pub open spec fn focus_unshadowed<C, W>(v: &Viewports<C, W>) -> bool {
    let list = v.root@.in_order();
    ||| first_match(v.in_order(), v.pointer) is Some
    ||| forall|i: int|
        0 <= i < list.len() && (forall|j: int| 0 <= j <= i ==> (#[trigger] list[j]).content is Some)
            ==> (#[trigger] list[i]).id != v.root@.first_leaf().id
}

/// Pointer input reads and writes the camera of one slot, exactly unless the slot that it falls
/// back to is shadowed by a container with the same identity.
pub proof fn lemma_focus_agrees<C, W>(v: &Viewports<C, W>)
    requires
        v.has_focus(),
    ensures
        first_match(v.in_order(), v.focus_id()) == Some(v.focus_cell()) <==> focus_unshadowed(v),
{
    if first_match(v.in_order(), v.pointer) is None {
        let leaf = v.root@.first_leaf();
        let inner = v.root@.in_order();
        lemma_first_leaf_listed(v.root@);
        let list = v.in_order();
        lemma_root_listed_first(v.panes());
        let rest = choose|rest: Seq<Cell<C, W>>|
            list == #[trigger] (v.panes()[0].in_order() + rest);
        let i = choose|i: int|
            0 <= i < inner.len() && #[trigger] inner[i] == leaf && forall|j: int|
                0 <= j < i ==> (#[trigger] inner[j]).content is Some;
        assert(forall|j: int| 0 <= j < inner.len() ==> #[trigger] list[j] == inner[j]);
        lemma_first_match_is_first(list, leaf.id);
        let m = match_index(list, leaf.id);
        assert(list[i].id == leaf.id);
        assert(m <= i);
        if focus_unshadowed(v) {
            if m < i {
                assert(inner[m].id == leaf.id);
                assert(forall|j: int| 0 <= j <= m ==> (#[trigger] inner[j]).content is Some);
            }
        } else {
            let k = choose|k: int|
                0 <= k < inner.len() && (forall|j: int|
                    0 <= j <= k ==> (#[trigger] inner[j]).content is Some) && (
                #[trigger] inner[k]).id == leaf.id;
            assert(list[k].id == leaf.id);
            assert(m <= k);
            assert(inner[m].content is Some);
        }
    }
}

/// Where no identity occurs twice, nothing is shadowed.
pub proof fn lemma_distinct_unshadowed<C, W>(v: &Viewports<C, W>)
    requires
        v.has_focus(),
        distinct_ids(v.in_order()),
    ensures
        focus_unshadowed(v),
{
    if first_match(v.in_order(), v.pointer) is None {
        let leaf = v.root@.first_leaf();
        let inner = v.root@.in_order();
        lemma_first_leaf_listed(v.root@);
        lemma_root_listed_first(v.panes());
        let rest = choose|rest: Seq<Cell<C, W>>|
            v.in_order() == #[trigger] (v.panes()[0].in_order() + rest);
        let i = choose|i: int|
            0 <= i < inner.len() && #[trigger] inner[i] == leaf && forall|j: int|
                0 <= j < i ==> (#[trigger] inner[j]).content is Some;
        assert forall|k: int|
            0 <= k < inner.len() && (forall|j: int|
                0 <= j <= k ==> (#[trigger] inner[j]).content is Some) implies (
        #[trigger] inner[k]).id != leaf.id by {
            assert(inner[k].content is Some);
            assert(v.in_order()[k] == inner[k]);
            assert(v.in_order()[i] == inner[i]);
        }
    }
}

/// A viewport is seen as it is: its axis, its slots in their order with their identities, cameras
/// and weights and whatever they hold, or its rectangle and what it wraps.
pub proof fn lemma_seen_as_it_is<C, W>(v: &Viewport<C, W>, s: &Slot<C, W>)
    ensures
        v matches Viewport::Slots { axis, slots } ==> (v@ matches Tree::Slots {
            axis: seen_axis,
            slots: seen,
        } && seen_axis == axis && seen.len() == slots.len() && forall|i: int|
            0 <= i < slots.len() ==> #[trigger] seen[i] == slots[i]@),
        v matches Viewport::Floating { rect, inner } ==> (v@ matches Tree::Floating {
            rect: seen_rect,
            inner: seen_inner,
        } && seen_rect == rect && *seen_inner == inner@),
        s@.id == s.id,
        s@.camera == s.camera,
        s@.weight == s.weight,
        s.content is None ==> s@.content is None,
        s.content matches Some(inner) ==> (s@.content matches Some(seen) && *seen == inner@),
{
    if let Viewport::Slots { slots, .. } = v {
        lemma_cells(slots@);
    }
}

/// Document order: a slot stands before what it holds, and both before the next slot; a floating
/// pane lists what it wraps; and one pane follows the other.
pub proof fn lemma_document_order<C, W>(
    axis: Axis,
    slots: Seq<Cell<C, W>>,
    c: Cell<C, W>,
    panes: Seq<Tree<C, W>>,
    t: Tree<C, W>,
)
    ensures
        c.in_order().len() > 0,
        c.in_order()[0] == c,
        c.content is None ==> c.in_order().len() == 1,
        c.content matches Some(inner) ==> c.in_order().drop_first() == inner.in_order(),
        (Tree::Slots { axis, slots: Seq::<Cell<C, W>>::empty() }).in_order().len() == 0,
        (Tree::Slots { axis, slots: slots.push(c) }).in_order() == (Tree::Slots {
            axis,
            slots,
        }).in_order() + c.in_order(),
        t matches Tree::Floating { inner, .. } ==> t.in_order() == inner.in_order(),
        forest_in_order(Seq::<Tree<C, W>>::empty()).len() == 0,
        forest_in_order(panes.push(t)) == forest_in_order(panes) + t.in_order(),
{
    reveal_with_fuel(Tree::in_order, 2);
    reveal_with_fuel(cells_in_order, 2);
    assert(slots.push(c).drop_last() =~= slots);
    assert(panes.push(t).drop_last() =~= panes);
    if let Some(inner) = c.content {
        assert((seq![c] + inner.in_order()).drop_first() =~= inner.in_order());
    }
}

/// The panes are the root and then the floating ones, in their order.
pub proof fn lemma_panes<C, W>(v: &Viewports<C, W>)
    ensures
        v.panes().len() == v.floating.len() + 1,
        v.panes()[0] == v.root@,
        forall|i: int| 0 <= i < v.floating.len() ==> #[trigger] v.floating[i]@ == v.panes()[i + 1],
        v.in_order() == forest_in_order(v.panes()),
{
}

/// The first leaf is reached through first slots: it is the first slot where that holds nothing,
/// else what is reached within it; and it is there where the way down does not break off.
pub proof fn lemma_first_leaf_descends<C, W>(t: Tree<C, W>)
    ensures
        t matches Tree::Slots { slots, .. } ==> {
            &&& t.has_leaf() <==> slots.len() > 0 && (slots[0].content matches Some(inner)
                ==> inner.has_leaf())
            &&& slots.len() > 0 && slots[0].content is None ==> t.first_leaf() == slots[0]
            &&& slots.len() > 0 ==> (slots[0].content matches Some(inner) ==> t.first_leaf()
                == inner.first_leaf())
        },
        t matches Tree::Floating { inner, .. } ==> t.has_leaf() == inner.has_leaf()
            && t.first_leaf() == inner.first_leaf(),
{
}

/// Replacing the slot that a search finds changes its own data and nothing else: the list is as
/// long, with the same identities in the same order, and every other slot has its camera and its
/// weight, in whichever pane it is.
pub proof fn lemma_replace_changes_one<C, W>(
    panes: Seq<Tree<C, W>>,
    id: SlotId,
    new: Cell<C, W>,
    i: int,
)
    requires
        first_match(forest_in_order(panes), id) matches Some(old_cell) && old_cell.content
            == new.content,
        0 <= i < forest_in_order(panes).len(),
    ensures
        ({
            let before = forest_in_order(panes);
            let after = forest_in_order(replace_in_forest(panes, id, new));
            let first = before[i].id == id && forall|j: int|
                0 <= j < i ==> (#[trigger] before[j]).id != id;
            &&& after.len() == before.len()
            &&& first ==> after[i].id == new.id && after[i].camera == new.camera && after[i].weight
                == new.weight
            &&& !first ==> after[i].id == before[i].id && after[i].camera == before[i].camera
                && after[i].weight == before[i].weight
            &&& after[i].content is Some <==> before[i].content is Some
        }),
{
    let before = forest_in_order(panes);
    let after = forest_in_order(replace_in_forest(panes, id, new));
    lemma_forest_replace(panes, id, new);
    lemma_first_match_is_first(before, id);
    let k = match_index(before, id);
    assert(labels(after).len() == after.len() && labels(before).len() == before.len());
    assert(labels(after)[i] == after[i].label());
    assert(labels(before)[i] == before[i].label());
    if i < k {
        assert(before[i].id != id);
    } else if i > k {
        assert(before[k].id == id);
    }
}

/// The slot that pointer input reads is the first with the identity of the pane under the cursor,
/// if there is one; else the first leaf of the root. The identity that it writes through is that
/// of the same.
pub proof fn lemma_focus<C, W>(v: &Viewports<C, W>, k: int)
    ensures
        0 <= k < v.in_order().len() && v.in_order()[k].id == v.pointer && (forall|j: int|
            0 <= j < k ==> (#[trigger] v.in_order()[j]).id != v.pointer) ==> v.has_focus()
            && v.focus_cell() == v.in_order()[k] && v.focus_id() == v.pointer,
        (forall|j: int|
            0 <= j < v.in_order().len() ==> (#[trigger] v.in_order()[j]).id != v.pointer) ==> {
            &&& v.focus_cell() == v.root@.first_leaf()
            &&& v.focus_id() == v.root@.first_leaf().id
            &&& v.has_focus() <==> v.root@.has_leaf()
        },
{
    lemma_first_match_is_first(v.in_order(), v.pointer);
    let m = match_index(v.in_order(), v.pointer);
    if 0 <= k < v.in_order().len() && v.in_order()[k].id == v.pointer && (forall|j: int|
        0 <= j < k ==> (#[trigger] v.in_order()[j]).id != v.pointer) {
        if m < k {
            assert(v.in_order()[m].id != v.pointer);
        }
    }
}

/// Viewports that differ in their panes only agree in all else.
pub proof fn lemma_only_panes_differ<C, W>(a: &Viewports<C, W>, b: &Viewports<C, W>)
    ensures
        a.same_but_panes(b) <==> a.active == b.active && a.pointer == b.pointer && a.next_id
            == b.next_id && a.visible == b.visible,
{
}

/// Replacing descends: a slot that is sought is replaced whole; one that is not keeps all its own
/// data, and what it holds is searched; a viewport keeps its axis or its rectangle.
pub proof fn lemma_replace_descends<C, W>(
    t: Tree<C, W>,
    c: Cell<C, W>,
    id: SlotId,
    new: Cell<C, W>,
)
    ensures
        c.id == id ==> c.replace(id, new) == new,
        c.id != id ==> {
            let r = c.replace(id, new);
            &&& r.id == c.id && r.camera == c.camera && r.weight == c.weight
            &&& c.content is None ==> r.content is None
            &&& c.content matches Some(inner) ==> (r.content matches Some(now) && *now
                == inner.replace(id, new))
        },
        t matches Tree::Slots { axis, slots } ==> (t.replace(id, new) matches Tree::Slots {
            axis: same,
            slots: now,
        } && same == axis && now == replace_in(slots, id, new)),
        t matches Tree::Floating { rect, inner } ==> (t.replace(id, new) matches Tree::Floating {
            rect: same,
            inner: now,
        } && same == rect && *now == inner.replace(id, new)),
{
}

} // verus!
