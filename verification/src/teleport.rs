//! The cursor-teleport layout and its edge-crossing lookup.
//!
//! The settings Display-tab canvas arranges square "placements" in an abstract layout space.
//! Each placement is a teleport zone for one physical monitor (`key` = its EDID "make model
//! serial"); the SAME monitor may have several placements (duplicates = extra zones), so a
//! placement is identified by a stable `id`, not by its key. This space is PURELY about where
//! the cursor crosses between monitors: it never affects scale or resolution.
//!
//! When the pointer leaves the monitor it is currently on, [`TeleportLayout::neighbor`] answers
//! which placement (if any) abuts the crossed edge at the crossing point, and where along the
//! entered edge (proportionally) the cursor should reappear. The coordinates are of a type `N`
//! that the library only carries; what a crossing measures is asked of the caller, one
//! candidate at a time, in the frame of the crossed edge.
use vstd::prelude::*;

verus! {

/// The side of a placement the cursor crossed (or entered through).
#[derive(Clone, Copy, PartialEq, Eq, Structural, Debug)]
pub enum Edge {
    Left,
    Right,
    Top,
    Bottom,
}

impl Edge {
    /// The edge on the far side.
    pub open spec fn across(self) -> Edge {
        match self {
            Edge::Left => Edge::Right,
            Edge::Right => Edge::Left,
            Edge::Top => Edge::Bottom,
            Edge::Bottom => Edge::Top,
        }
    }

    /// The edge on the far side: the side a neighbor is entered through.
    pub fn opposite(self) -> (r: Edge)
        ensures
            r == self.across(),
            self is Left <==> r is Right,
            self is Right <==> r is Left,
            self is Top <==> r is Bottom,
            self is Bottom <==> r is Top,
    {
        match self {
            Edge::Left => Edge::Right,
            Edge::Right => Edge::Left,
            Edge::Top => Edge::Bottom,
            Edge::Bottom => Edge::Top,
        }
    }
}

/// One placed monitor square in abstract layout space (`size` = side length; the square spans
/// `[x, x+size]` by `[y, y+size]`).
#[derive(Clone, Debug, PartialEq)]
pub struct Placement<N> {
    pub id: u64,
    pub key: String,
    pub x: N,
    pub y: N,
    pub size: N,
}

/// The result of a successful crossing: the entered placement plus where along its entry edge
/// the cursor lands.
#[derive(Clone, Debug, PartialEq)]
pub struct Neighbor<N> {
    pub id: u64,
    pub key: String,
    /// The edge of the entered placement the cursor comes in through.
    pub entry_edge: Edge,
    /// Position along `entry_edge`, zero = its start (top for L/R, left for T/B).
    pub entry_frac: N,
}

/// The full arrangement of teleport zones (empty on single-monitor / no layout).
#[derive(Clone, Debug)]
pub struct TeleportLayout<N> {
    pub placements: Vec<Placement<N>>,
}

/// One candidate crossing in the frame of the crossed edge: `across` runs through the edge,
/// `along` runs beside it.
#[derive(Clone, Copy, Debug, PartialEq)]
pub struct Crossing<N> {
    /// Whether the crossed edge is the one at the high end of `across` (right or bottom).
    pub ascending: bool,
    /// Where along the crossed edge the cursor leaves.
    pub exit_frac: N,
    pub from_across: N,
    pub from_along: N,
    pub from_size: N,
    pub to_across: N,
    pub to_along: N,
    pub to_size: N,
}

/// What a candidate crossing measures.
#[derive(Clone, Copy, Debug, PartialEq)]
pub struct Landing<N> {
    /// How far apart the two facing edges lie: greater for a wider gap, equal for an equal one.
    pub gap: u32,
    /// The widest gap, on the same scale, that still abuts.
    pub tolerance: u32,
    /// Whether the facing edge covers the crossing point.
    pub covers: bool,
    /// Where along the facing edge the cursor lands.
    pub entry_frac: N,
}

/// Whether the listed placement at `i` is the first identified by `id`.
pub open spec fn is_first_with_id<N>(list: Seq<Placement<N>>, id: u64, i: int) -> bool {
    &&& 0 <= i < list.len()
    &&& list[i].id == id
    &&& forall|j: int| 0 <= j < i ==> (#[trigger] list[j]).id != id
}

/// Whether the listed placement at `i` is the first of monitor `key`.
pub open spec fn is_first_with_key<N>(list: Seq<Placement<N>>, key: Seq<char>, i: int) -> bool {
    &&& 0 <= i < list.len()
    &&& list[i].key@ == key
    &&& forall|j: int| 0 <= j < i ==> (#[trigger] list[j]).key@ != key
}

/// The crossing from `from` through `edge` into `to`, in the frame of that edge.
pub open spec fn crossing<N>(from: Placement<N>, to: Placement<N>, edge: Edge, frac: N) -> Crossing<
    N,
> {
    match edge {
        Edge::Left | Edge::Right => Crossing {
            ascending: edge is Right,
            exit_frac: frac,
            from_across: from.x,
            from_along: from.y,
            from_size: from.size,
            to_across: to.x,
            to_along: to.y,
            to_size: to.size,
        },
        Edge::Top | Edge::Bottom => Crossing {
            ascending: edge is Bottom,
            exit_frac: frac,
            from_across: from.y,
            from_along: from.x,
            from_size: from.size,
            to_across: to.y,
            to_along: to.x,
            to_size: to.size,
        },
    }
}

/// Whether the placement at `i` can be entered: it is another placement, abuts the crossed edge
/// and covers the crossing point.
pub open spec fn enters<N>(
    list: Seq<Placement<N>>,
    landings: Seq<Landing<N>>,
    from_id: u64,
    i: int,
) -> bool {
    &&& 0 <= i < list.len()
    &&& list[i].id != from_id
    &&& landings[i].gap <= landings[i].tolerance
    &&& landings[i].covers
}

/// Whether the placement at `k` is the one entered: it can be, none nearer can be, and none as
/// near stands before it.
pub open spec fn is_entered<N>(
    list: Seq<Placement<N>>,
    landings: Seq<Landing<N>>,
    from_id: u64,
    k: int,
) -> bool {
    &&& enters(list, landings, from_id, k)
    &&& forall|i: int| #[trigger]
        enters(list, landings, from_id, i) ==> landings[k].gap < landings[i].gap || (
        landings[k].gap == landings[i].gap && k <= i)
}

impl<N> Default for TeleportLayout<N> {
    fn default() -> (r: Self)
        ensures
            r.placements.len() == 0,
    {
        TeleportLayout { placements: Vec::new() }
    }
}

impl<N> TeleportLayout<N> {
    /// The layout of these placements.
    pub fn new(placements: Vec<Placement<N>>) -> (r: Self)
        ensures
            r.placements == placements,
    {
        TeleportLayout { placements }
    }

    /// Whether there is no teleport zone.
    pub fn is_empty(&self) -> (r: bool)
        ensures
            r == (self.placements.len() == 0),
    {
        self.placements.is_empty()
    }

    /// The first placement identified by `id`.
    pub fn get(&self, id: u64) -> (r: Option<&Placement<N>>)
        ensures
            match r {
                Some(p) => exists|i: int| #[trigger]
                    is_first_with_id(self.placements@, id, i) && *p == self.placements[i],
                None => forall|i: int|
                    0 <= i < self.placements.len() ==> (#[trigger] self.placements[i]).id != id,
            },
            r matches Some(p) ==> p.id == id && exists|i: int|
                0 <= i < self.placements.len() && *p == (#[trigger] self.placements[i]) && forall|
                    j: int,
                |
                    0 <= j < i ==> (#[trigger] self.placements[j]).id != id,
    {
        let mut i: usize = 0;
        while i < self.placements.len()
            invariant
                i <= self.placements.len(),
                forall|j: int| 0 <= j < i ==> (#[trigger] self.placements[j]).id != id,
            decreases self.placements.len() - i,
        {
            if self.placements[i].id == id {
                assert(is_first_with_id(self.placements@, id, i as int));
                return Some(&self.placements[i]);
            }
            i = i + 1;
        }
        None
    }

    /// The first placement of monitor `key`, if any: the zone the cursor starts in when it
    /// lands on that monitor with no more specific placement known.
    pub fn first_of(&self, key: &str) -> (r: Option<&Placement<N>>)
        ensures
            match r {
                Some(p) => exists|i: int| #[trigger]
                    is_first_with_key(self.placements@, key@, i) && *p == self.placements[i],
                None => forall|i: int|
                    0 <= i < self.placements.len() ==> (#[trigger] self.placements[i]).key@
                        != key@,
            },
            r matches Some(p) ==> p.key@ == key@ && exists|i: int|
                0 <= i < self.placements.len() && *p == (#[trigger] self.placements[i]) && forall|
                    j: int,
                |
                    0 <= j < i ==> (#[trigger] self.placements[j]).key@ != key@,
    {
        let wanted = key.to_owned();
        let mut i: usize = 0;
        while i < self.placements.len()
            invariant
                wanted@ == key@,
                i <= self.placements.len(),
                forall|j: int| 0 <= j < i ==> (#[trigger] self.placements[j]).key@ != key@,
            decreases self.placements.len() - i,
        {
            if self.placements[i].key == wanted {
                assert(is_first_with_key(self.placements@, key@, i as int));
                return Some(&self.placements[i]);
            }
            i = i + 1;
        }
        None
    }
}

impl<N: Copy> TeleportLayout<N> {
    /// Whether `landings` are what `measure` may give for the crossings from the placement at
    /// `from` through `edge` at `frac` into each other placement.
    pub open spec fn measured<F: Fn(Crossing<N>) -> Landing<N>>(
        &self,
        from: int,
        edge: Edge,
        frac: N,
        measure: F,
        landings: Seq<Landing<N>>,
    ) -> bool {
        &&& landings.len() == self.placements.len()
        &&& forall|i: int|
            0 <= i < landings.len() && self.placements[i].id != self.placements[from].id
                ==> call_ensures(
                measure,
                (crossing(self.placements[from], self.placements[i], edge, frac),),
                #[trigger] landings[i],
            )
    }

    /// Whether `r` is where the cursor may come to when it leaves placement `from_id` across
    /// `edge` at `frac`, by what `measure` may give: no place if there is no such placement, else
    /// the placement entered, at the edge and the point where it is entered, if one can be.
    pub open spec fn leads_to<F: Fn(Crossing<N>) -> Landing<N>>(
        &self,
        from_id: u64,
        edge: Edge,
        frac: N,
        measure: F,
        r: Option<Neighbor<N>>,
    ) -> bool {
        &&& (forall|i: int|
            0 <= i < self.placements.len() ==> (#[trigger] self.placements[i]).id != from_id)
            ==> r is None
        &&& forall|from: int| #[trigger]
            is_first_with_id(self.placements@, from_id, from) ==> exists|
                landings: Seq<Landing<N>>,
            | #[trigger]
                self.measured(from, edge, frac, measure, landings) && match r {
                    Some(n) => exists|k: int| #[trigger]
                        is_entered(self.placements@, landings, from_id, k) && n.id
                            == self.placements[k].id && n.key@ == self.placements[k].key@
                            && n.entry_edge == edge.across() && n.entry_frac
                            == landings[k].entry_frac,
                    None => forall|i: int|
                        !#[trigger] enters(self.placements@, landings, from_id, i),
                }
    }

    /// Given the cursor is leaving placement `from_id` across `edge` at `exit_frac` (zero =
    /// start of that edge: top for Left/Right, left for Top/Bottom), find the abutting placement
    /// to enter, if one covers the crossing point; `measure` measures one candidate.
    pub fn neighbor<F: Fn(Crossing<N>) -> Landing<N>>(
        &self,
        from_id: u64,
        edge: Edge,
        exit_frac: N,
        measure: F,
    ) -> (r: Option<Neighbor<N>>)
        requires
            forall|c: Crossing<N>| call_requires(measure, (c,)),
        ensures
            self.leads_to(from_id, edge, exit_frac, measure, r),
            r matches Some(n) ==> n.id != from_id,
            r matches Some(n) ==> exists|k: int|
                0 <= k < self.placements.len() && n.id == (#[trigger] self.placements[k]).id
                    && n.key@ == self.placements[k].key@,
            r matches Some(n) ==> match edge {
                Edge::Left => n.entry_edge is Right,
                Edge::Right => n.entry_edge is Left,
                Edge::Top => n.entry_edge is Bottom,
                Edge::Bottom => n.entry_edge is Top,
            },
    {
        let from = match self.get(from_id) {
            Some(p) => p,
            None => {
                return None;
            },
        };
        let ghost at = choose|i: int| #[trigger]
            is_first_with_id(self.placements@, from_id, i) && *from == self.placements[i];
        let ghost mut landings: Seq<Landing<N>> = Seq::empty();
        let mut best: Option<(usize, Landing<N>)> = None;
        let mut i: usize = 0;
        while i < self.placements.len()
            invariant
                forall|c: Crossing<N>| call_requires(measure, (c,)),
                is_first_with_id(self.placements@, from_id, at),
                *from == self.placements[at],
                i <= self.placements.len(),
                landings.len() == i,
                forall|j: int|
                    0 <= j < i && self.placements[j].id != self.placements[at].id ==> call_ensures(
                        measure,
                        (crossing(self.placements[at], self.placements[j], edge, exit_frac),),
                        #[trigger] landings[j],
                    ),
                match best {
                    Some((k, landing)) => k < i && landing == landings[k as int] && enters(
                        self.placements@,
                        landings,
                        from_id,
                        k as int,
                    ) && forall|j: int|
                        0 <= j < i && #[trigger] enters(self.placements@, landings, from_id, j)
                            ==> landing.gap < landings[j].gap || (landing.gap == landings[j].gap
                            && k <= j),
                    None => forall|j: int|
                        0 <= j < i ==> !#[trigger] enters(self.placements@, landings, from_id, j),
                },
            decreases self.placements.len() - i,
        {
            let q = &self.placements[i];
            let ghost before = landings;
            if q.id == from_id {
                proof {
                    landings = landings.push(arbitrary());
                }
            } else {
                let c = match edge {
                    Edge::Left | Edge::Right => Crossing {
                        ascending: match edge {
                            Edge::Right => true,
                            _ => false,
                        },
                        exit_frac,
                        from_across: from.x,
                        from_along: from.y,
                        from_size: from.size,
                        to_across: q.x,
                        to_along: q.y,
                        to_size: q.size,
                    },
                    Edge::Top | Edge::Bottom => Crossing {
                        ascending: match edge {
                            Edge::Bottom => true,
                            _ => false,
                        },
                        exit_frac,
                        from_across: from.y,
                        from_along: from.x,
                        from_size: from.size,
                        to_across: q.y,
                        to_along: q.x,
                        to_size: q.size,
                    },
                };
                let landing = measure(c);
                proof {
                    landings = landings.push(landing);
                }
                if landing.gap <= landing.tolerance && landing.covers {
                    let nearer = match &best {
                        Some((_, b)) => landing.gap < b.gap,
                        None => true,
                    };
                    if nearer {
                        best = Some((i, landing));
                    }
                }
            }
            proof {
                assert forall|j: int| 0 <= j < i implies #[trigger] enters(
                    self.placements@,
                    landings,
                    from_id,
                    j,
                ) == enters(self.placements@, before, from_id, j) by {
                    assert(landings[j] == before[j]);
                }
            }
            i = i + 1;
        }
        proof {
            assert(self.measured(at, edge, exit_frac, measure, landings));
            assert forall|f: int| #[trigger]
                is_first_with_id(self.placements@, from_id, f) implies f == at by {
                if f < at {
                    assert(self.placements[f].id != from_id);
                } else if at < f {
                    assert(self.placements[at].id != from_id);
                }
            }
        }
        match best {
            Some((k, landing)) => {
                let q = &self.placements[k];
                assert(is_entered(self.placements@, landings, from_id, k as int));
                Some(
                    Neighbor {
                        id: q.id,
                        key: q.key.clone(),
                        entry_edge: edge.opposite(),
                        entry_frac: landing.entry_frac,
                    },
                )
            },
            None => None,
        }
    }
}

/// Going back through the opposite edge is going through the edge itself.
pub proof fn lemma_opposite_involution(edge: Edge)
    ensures
        edge.across().across() == edge,
        edge.across() != edge,
{
}

/// At most one placement is the one entered.
pub proof fn lemma_entered_unique<N>(
    list: Seq<Placement<N>>,
    landings: Seq<Landing<N>>,
    from_id: u64,
    a: int,
    b: int,
)
    requires
        is_entered(list, landings, from_id, a),
        is_entered(list, landings, from_id, b),
    ensures
        a == b,
{
    assert(enters(list, landings, from_id, a));
    assert(enters(list, landings, from_id, b));
}

/// The way back measures the same two squares in the same frame, from the other side.
pub proof fn lemma_crossing_back<N>(
    from: Placement<N>,
    to: Placement<N>,
    edge: Edge,
    there: N,
    back: N,
)
    ensures
        ({
            let a = crossing(from, to, edge, there);
            let b = crossing(to, from, edge.across(), back);
            &&& b.ascending == !a.ascending
            &&& b.exit_frac == back
            &&& (b.from_across, b.from_along, b.from_size) == (a.to_across, a.to_along, a.to_size)
            &&& (b.to_across, b.to_along, b.to_size) == (a.from_across, a.from_along, a.from_size)
        }),
{
}

impl<N> Crossing<N> {
    /// The crossing straight back, at `frac`.
    pub open spec fn returned(self, frac: N) -> Crossing<N> {
        Crossing {
            ascending: !self.ascending,
            exit_frac: frac,
            from_across: self.to_across,
            from_along: self.to_along,
            from_size: self.to_size,
            to_across: self.from_across,
            to_along: self.from_along,
            to_size: self.from_size,
        }
    }
}

/// Whether the crossing `c`, where it abuts and is covered, measures the same on the way back:
/// as wide a gap, as wide a tolerance, covered, and landing at the same point as it left, as far
/// as `same` tells.
pub open spec fn turns_back<N, F: Fn(Crossing<N>) -> Landing<N>>(
    measure: F,
    c: Crossing<N>,
    same: spec_fn(N, N) -> bool,
) -> bool {
    forall|there: Landing<N>, back: Landing<N>|
        #[trigger] call_ensures(measure, (c,), there) && there.gap <= there.tolerance
            && there.covers && #[trigger] call_ensures(
            measure,
            (c.returned(there.entry_frac),),
            back,
        ) ==> back.gap
            == there.gap && back.tolerance == there.tolerance && back.covers && same(
            back.entry_frac,
            c.exit_frac,
        )
}

/// Crossing straight back between two placements returns: to the placement that was left, through
/// the edge that was crossed, at the point where it was.
pub proof fn lemma_crossing_returns<N: Copy, F: Fn(Crossing<N>) -> Landing<N>>(
    layout: &TeleportLayout<N>,
    from: int,
    edge: Edge,
    frac: N,
    measure: F,
    same: spec_fn(N, N) -> bool,
    there: Neighbor<N>,
    back: Option<Neighbor<N>>,
)
    requires
        layout.placements.len() == 2,
        layout.placements[0].id != layout.placements[1].id,
        0 <= from < 2,
        turns_back(
            measure,
            crossing(layout.placements[from], layout.placements[1 - from], edge, frac),
            same,
        ),
        layout.leads_to(layout.placements[from].id, edge, frac, measure, Some(there)),
        layout.leads_to(there.id, there.entry_edge, there.entry_frac, measure, back),
    ensures
        back matches Some(m) && m.id == layout.placements[from].id && m.key@
            == layout.placements[from].key@ && m.entry_edge == edge && same(m.entry_frac, frac),
{
    let list = layout.placements@;
    let to = 1 - from;
    let from_id = list[from].id;
    let to_id = list[to].id;
    assert(is_first_with_id(list, from_id, from));
    assert(is_first_with_id(list, to_id, to));
    let out = choose|landings: Seq<Landing<N>>| #[trigger]
        layout.measured(from, edge, frac, measure, landings) && exists|k: int| #[trigger]
            is_entered(list, landings, from_id, k) && there.id == list[k].id && there.key@
                == list[k].key@ && there.entry_edge == edge.across() && there.entry_frac
                == landings[k].entry_frac;
    let k = choose|k: int| #[trigger]
        is_entered(list, out, from_id, k) && there.id == list[k].id && there.key@ == list[k].key@
            && there.entry_edge == edge.across() && there.entry_frac == out[k].entry_frac;
    assert(enters(list, out, from_id, k));
    assert(k == to);
    let c = crossing(list[from], list[to], edge, frac);
    assert(call_ensures(measure, (c,), out[to]));
    lemma_crossing_back(list[from], list[to], edge, frac, there.entry_frac);
    lemma_opposite_involution(edge);
    let home = choose|landings: Seq<Landing<N>>| #[trigger]
        layout.measured(to, there.entry_edge, there.entry_frac, measure, landings) && match back {
            Some(n) => exists|k: int| #[trigger]
                is_entered(list, landings, to_id, k) && n.id == list[k].id && n.key@ == list[k].key@
                    && n.entry_edge == there.entry_edge.across() && n.entry_frac
                    == landings[k].entry_frac,
            None => forall|i: int| !#[trigger] enters(list, landings, to_id, i),
        };
    let way = crossing(list[to], list[from], there.entry_edge, there.entry_frac);
    assert(way == c.returned(there.entry_frac));
    assert(call_ensures(measure, (way,), home[from]));
    assert(call_ensures(measure, (c.returned(out[to].entry_frac),), home[from]));
    assert(enters(list, home, to_id, from));
    let m = back.unwrap();
    let j = choose|j: int| #[trigger]
        is_entered(list, home, to_id, j) && m.id == list[j].id && m.key@ == list[j].key@
            && m.entry_edge == there.entry_edge.across() && m.entry_frac == home[j].entry_frac;
    assert(enters(list, home, to_id, j));
    assert(j == from);
}

/// Each edge has its far side.
pub proof fn lemma_far_sides()
    ensures
        Edge::Left.across() == Edge::Right,
        Edge::Right.across() == Edge::Left,
        Edge::Top.across() == Edge::Bottom,
        Edge::Bottom.across() == Edge::Top,
{
}

/// A crossing is measured in the frame of its edge: through a left or right edge `across` is the
/// horizontal and `along` the vertical coordinate, through a top or bottom edge the other way
/// round; it ascends through the right and the bottom edge.
pub proof fn lemma_crossing_frame<N>(from: Placement<N>, to: Placement<N>, edge: Edge, frac: N)
    ensures
        ({
            let c = crossing(from, to, edge, frac);
            &&& c.ascending <==> edge is Right || edge is Bottom
            &&& c.exit_frac == frac
            &&& c.from_size == from.size && c.to_size == to.size
            &&& edge is Left || edge is Right ==> (c.from_across, c.from_along) == (from.x, from.y)
                && (c.to_across, c.to_along) == (to.x, to.y)
            &&& edge is Top || edge is Bottom ==> (c.from_across, c.from_along) == (from.y, from.x)
                && (c.to_across, c.to_along) == (to.y, to.x)
        }),
{
}

/// What a crossing comes to: the placement that is entered is another one, abuts the crossed edge
/// and covers the crossing point by what was measured of it; no other such placement is nearer,
/// nor as near and listed before it; and it is entered through the far side, where was measured.
/// What was measured, and which placement it is, are given.
pub proof fn lemma_entered<N: Copy, F: Fn(Crossing<N>) -> Landing<N>>(
    layout: &TeleportLayout<N>,
    from: int,
    edge: Edge,
    frac: N,
    measure: F,
    n: Neighbor<N>,
) -> (w: (Seq<Landing<N>>, int))
    requires
        0 <= from < layout.placements.len(),
        forall|j: int|
            0 <= j < from ==> (#[trigger] layout.placements[j]).id != layout.placements[from].id,
        layout.leads_to(layout.placements[from].id, edge, frac, measure, Some(n)),
    ensures
        ({
            let list = layout.placements@;
            let (landings, k) = w;
            &&& landings.len() == list.len()
            &&& forall|i: int|
                0 <= i < list.len() && list[i].id != list[from].id ==> call_ensures(
                    measure,
                    (crossing(list[from], list[i], edge, frac),),
                    #[trigger] landings[i],
                )
            &&& 0 <= k < list.len()
            &&& list[k].id != list[from].id
            &&& landings[k].gap <= landings[k].tolerance
            &&& landings[k].covers
            &&& forall|i: int|
                0 <= i < list.len() && list[i].id != list[from].id && (#[trigger] landings[i]).gap
                    <= landings[i].tolerance && landings[i].covers ==> landings[k].gap
                    < landings[i].gap || (landings[k].gap == landings[i].gap && k <= i)
            &&& n.id == list[k].id
            &&& n.key@ == list[k].key@
            &&& n.entry_frac == landings[k].entry_frac
            &&& n.entry_edge == match edge {
                Edge::Left => Edge::Right,
                Edge::Right => Edge::Left,
                Edge::Top => Edge::Bottom,
                Edge::Bottom => Edge::Top,
            }
        }),
{
    let list = layout.placements@;
    let from_id = list[from].id;
    assert(is_first_with_id(list, from_id, from));
    let landings = choose|landings: Seq<Landing<N>>| #[trigger]
        layout.measured(from, edge, frac, measure, landings) && exists|k: int| #[trigger]
            is_entered(list, landings, from_id, k) && n.id == list[k].id && n.key@ == list[k].key@
                && n.entry_edge == edge.across() && n.entry_frac == landings[k].entry_frac;
    let k = choose|k: int| #[trigger]
        is_entered(list, landings, from_id, k) && n.id == list[k].id && n.key@ == list[k].key@
            && n.entry_edge == edge.across() && n.entry_frac == landings[k].entry_frac;
    assert(enters(list, landings, from_id, k));
    assert forall|i: int|
        0 <= i < list.len() && list[i].id != from_id && (#[trigger] landings[i]).gap
            <= landings[i].tolerance && landings[i].covers implies landings[k].gap
        < landings[i].gap || (landings[k].gap == landings[i].gap && k <= i) by {
        assert(enters(list, landings, from_id, i));
    }
    (landings, k)
}

/// Where nothing is entered, no other placement abuts the crossed edge and covers the crossing
/// point, by what was measured of each, which is given.
pub proof fn lemma_not_entered<N: Copy, F: Fn(Crossing<N>) -> Landing<N>>(
    layout: &TeleportLayout<N>,
    from: int,
    edge: Edge,
    frac: N,
    measure: F,
) -> (landings: Seq<Landing<N>>)
    requires
        0 <= from < layout.placements.len(),
        forall|j: int|
            0 <= j < from ==> (#[trigger] layout.placements[j]).id != layout.placements[from].id,
        layout.leads_to(layout.placements[from].id, edge, frac, measure, None),
    ensures
        ({
            let list = layout.placements@;
            &&& landings.len() == list.len()
            &&& forall|i: int|
                0 <= i < list.len() && list[i].id != list[from].id ==> call_ensures(
                    measure,
                    (crossing(list[from], list[i], edge, frac),),
                    #[trigger] landings[i],
                ) && !(landings[i].gap <= landings[i].tolerance && landings[i].covers)
        }),
{
    let list = layout.placements@;
    let from_id = list[from].id;
    assert(is_first_with_id(list, from_id, from));
    let landings = choose|landings: Seq<Landing<N>>| #[trigger]
        layout.measured(from, edge, frac, measure, landings) && forall|i: int|
            !#[trigger] enters(list, landings, from_id, i);
    assert forall|i: int| 0 <= i < list.len() && list[i].id != from_id implies call_ensures(
        measure,
        (crossing(list[from], list[i], edge, frac),),
        #[trigger] landings[i],
    ) && !(landings[i].gap <= landings[i].tolerance && landings[i].covers) by {
        assert(!enters(list, landings, from_id, i));
    }
    landings
}

/// A cursor that leaves no placement comes to none.
pub proof fn lemma_from_nowhere<N: Copy, F: Fn(Crossing<N>) -> Landing<N>>(
    layout: &TeleportLayout<N>,
    from_id: u64,
    edge: Edge,
    frac: N,
    measure: F,
    r: Option<Neighbor<N>>,
)
    requires
        layout.leads_to(from_id, edge, frac, measure, r),
        forall|i: int|
            0 <= i < layout.placements.len() ==> (#[trigger] layout.placements[i]).id != from_id,
    ensures
        r is None,
{
}

} // verus!
