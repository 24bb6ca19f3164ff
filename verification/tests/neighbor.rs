//! Edge-crossing lookup for the cursor-teleport layout, on single-precision coordinates.
use compositor_core::teleport::{Crossing, Edge, Landing, Neighbor, Placement, TeleportLayout};

fn sq(id: u64, key: &str, x: f32, y: f32, size: f32) -> Placement<f32> {
    Placement { id, key: key.into(), x, y, size }
}

fn adj_tol(a: f32, b: f32) -> f32 {
    (0.02 * (a + b) * 0.5).max(1.0)
}

fn within(v: f32, lo: f32, hi: f32) -> bool {
    v >= lo - f32::EPSILON && v <= hi + f32::EPSILON
}

/// Non-negative floats order as their bit patterns do.
fn measure(c: Crossing<f32>) -> Landing<f32> {
    let f = c.exit_frac.clamp(0.0, 1.0);
    let leaves = if c.ascending { c.from_across + c.from_size } else { c.from_across };
    let at = c.from_along + f * c.from_size;
    let faces = if c.ascending { c.to_across } else { c.to_across + c.to_size };
    Landing {
        gap: (faces - leaves).abs().to_bits(),
        tolerance: adj_tol(c.from_size, c.to_size).to_bits(),
        covers: within(at, c.to_along, c.to_along + c.to_size),
        entry_frac: ((at - c.to_along) / c.to_size).clamp(0.0, 1.0),
    }
}

fn neighbor(l: &TeleportLayout<f32>, from: u64, edge: Edge, frac: f32) -> Option<Neighbor<f32>> {
    l.neighbor(from, edge, frac, measure)
}

// Two equal squares side by side: A(id1) at x=0, B(id2) at x=100, both 100 by 100.
fn side_by_side() -> TeleportLayout<f32> {
    TeleportLayout::new(vec![sq(1, "A", 0.0, 0.0, 100.0), sq(2, "B", 100.0, 0.0, 100.0)])
}

#[test]
fn cross_right_into_left_neighbor() {
    let l = side_by_side();
    let n = neighbor(&l, 1, Edge::Right, 0.25).expect("B abuts A on the right");
    assert_eq!(n.id, 2);
    assert_eq!(n.key, "B");
    assert_eq!(n.entry_edge, Edge::Left);
    // Same vertical fraction preserved (equal heights).
    assert!((n.entry_frac - 0.25).abs() < 1e-4, "entry_frac={}", n.entry_frac);
}

#[test]
fn cross_left_back_into_right_neighbor() {
    let l = side_by_side();
    let n = neighbor(&l, 2, Edge::Left, 0.75).expect("A abuts B on the left");
    assert_eq!(n.id, 1);
    assert_eq!(n.entry_edge, Edge::Right);
    assert!((n.entry_frac - 0.75).abs() < 1e-4);
}

#[test]
fn no_neighbor_on_free_edge() {
    let l = side_by_side();
    assert!(neighbor(&l, 1, Edge::Left, 0.5).is_none(), "A's left edge is free");
    assert!(neighbor(&l, 1, Edge::Top, 0.5).is_none());
    assert!(neighbor(&l, 2, Edge::Right, 0.5).is_none());
}

#[test]
fn differing_sizes_preserve_proportion() {
    // Big A (0..200) beside small B (200..300, vertically offset 40..140).
    let l = TeleportLayout::new(vec![sq(1, "A", 0.0, 0.0, 200.0), sq(2, "B", 200.0, 40.0, 100.0)]);
    // Exit A's right at frac 0.5: abstract y = 100, within B's [40,140].
    let n = neighbor(&l, 1, Edge::Right, 0.5).expect("B covers y=100");
    assert_eq!(n.id, 2);
    // Entry frac into B = (100 - 40) / 100 = 0.6.
    assert!((n.entry_frac - 0.6).abs() < 1e-4, "entry_frac={}", n.entry_frac);
}

#[test]
fn crossing_outside_neighbor_span_is_none() {
    // B only covers y in [40,140]; exiting A's right at the very top misses.
    let l = TeleportLayout::new(vec![sq(1, "A", 0.0, 0.0, 200.0), sq(2, "B", 200.0, 40.0, 100.0)]);
    assert!(neighbor(&l, 1, Edge::Right, 0.0).is_none());
}

#[test]
fn duplicate_key_is_a_distinct_zone() {
    // Same monitor "A" placed twice; B in the middle. Crossing B's right lands on the second A
    // placement (id 3), not the first.
    let l = TeleportLayout::new(vec![
        sq(1, "A", 0.0, 0.0, 100.0),
        sq(2, "B", 100.0, 0.0, 100.0),
        sq(3, "A", 200.0, 0.0, 100.0),
    ]);
    let n = neighbor(&l, 2, Edge::Right, 0.5).expect("second A abuts B");
    assert_eq!(n.id, 3);
    assert_eq!(n.key, "A");
}

#[test]
fn vertical_stack_crosses_bottom_to_top() {
    let l = TeleportLayout::new(vec![sq(1, "A", 0.0, 0.0, 100.0), sq(2, "B", 0.0, 100.0, 100.0)]);
    let n = neighbor(&l, 1, Edge::Bottom, 0.3).expect("B below A");
    assert_eq!(n.id, 2);
    assert_eq!(n.entry_edge, Edge::Top);
    assert!((n.entry_frac - 0.3).abs() < 1e-4);
}

#[test]
fn opposite_edges_undo_each_other() {
    for e in [Edge::Left, Edge::Right, Edge::Top, Edge::Bottom] {
        assert_eq!(e.opposite().opposite(), e);
        assert_ne!(e.opposite(), e);
    }
    assert_eq!(Edge::Left.opposite(), Edge::Right);
    assert_eq!(Edge::Top.opposite(), Edge::Bottom);
}

#[test]
fn nearest_abutting_placement_wins_and_ties_go_to_the_first() {
    // Three squares abut A's right edge within its tolerance of 2.
    let l = TeleportLayout::new(vec![
        sq(1, "A", 0.0, 0.0, 100.0),
        sq(2, "B", 101.5, 0.0, 100.0),
        sq(3, "C", 100.5, 0.0, 100.0),
        sq(4, "D", 100.5, 0.0, 100.0),
    ]);
    assert_eq!(neighbor(&l, 1, Edge::Right, 0.5).unwrap().id, 3);
    // Just beyond the tolerance nothing is entered.
    let far = TeleportLayout::new(vec![sq(1, "A", 0.0, 0.0, 100.0), sq(2, "B", 102.5, 0.0, 100.0)]);
    assert!(neighbor(&far, 1, Edge::Right, 0.5).is_none());
}

#[test]
fn crossing_top_and_back() {
    let l = TeleportLayout::new(vec![sq(1, "A", 0.0, 0.0, 100.0), sq(2, "B", 0.0, 100.0, 100.0)]);
    let up = neighbor(&l, 2, Edge::Top, 0.3).unwrap();
    assert_eq!((up.id, up.entry_edge), (1, Edge::Bottom));
    let down = neighbor(&l, up.id, up.entry_edge, up.entry_frac).unwrap();
    assert_eq!((down.id, down.entry_edge), (2, Edge::Top));
    assert!((down.entry_frac - 0.3).abs() < 1e-4);
}

#[test]
fn the_measure_is_asked_in_the_frame_of_the_edge() {
    let l = TeleportLayout::new(vec![sq(1, "A", 1.0, 2.0, 3.0), sq(2, "B", 4.0, 5.0, 6.0)]);
    for (edge, ascending, across) in [
        (Edge::Left, false, (1.0, 2.0, 4.0, 5.0)),
        (Edge::Right, true, (1.0, 2.0, 4.0, 5.0)),
        (Edge::Top, false, (2.0, 1.0, 5.0, 4.0)),
        (Edge::Bottom, true, (2.0, 1.0, 5.0, 4.0)),
    ] {
        let n = l.neighbor(1, edge, 0.5, |c: Crossing<f32>| {
            assert_eq!(c.ascending, ascending);
            assert_eq!((c.from_across, c.from_along, c.to_across, c.to_along), across);
            assert_eq!((c.from_size, c.to_size, c.exit_frac), (3.0, 6.0, 0.5));
            Landing { gap: 7, tolerance: 7, covers: true, entry_frac: 0.125 }
        });
        let n = n.unwrap();
        assert_eq!((n.id, n.entry_edge, n.entry_frac), (2, edge.opposite(), 0.125));
    }
}

#[test]
fn lookup_by_id_and_by_monitor() {
    let l = TeleportLayout::new(vec![
        sq(7, "A", 0.0, 0.0, 1.0),
        sq(8, "B", 1.0, 0.0, 1.0),
        sq(9, "A", 2.0, 0.0, 1.0),
        sq(8, "C", 3.0, 0.0, 1.0),
    ]);
    assert!(!l.is_empty());
    assert_eq!(l.get(8).unwrap().key, "B");
    assert!(l.get(1).is_none());
    assert_eq!(l.first_of("A").unwrap().id, 7);
    assert_eq!(l.first_of("C").unwrap().x, 3.0);
    assert!(l.first_of("D").is_none());
    assert!(TeleportLayout::<f32>::new(vec![]).is_empty());
    assert!(neighbor(&l, 1, Edge::Left, 0.5).is_none());
}
