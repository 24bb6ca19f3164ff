use compositor_core::geometry::Rect;
use compositor_core::viewport::{Axis, Slot, Viewport, Viewports};

fn leaf(id: u64, camera: i32) -> Slot<i32, f64> {
    Slot { id, camera, content: None, weight: 1.0 }
}

fn branch(id: u64, camera: i32, axis: Axis, slots: Vec<Slot<i32, f64>>) -> Slot<i32, f64> {
    Slot { id, camera, content: Some(Box::new(Viewport::Slots { axis, slots })), weight: 1.0 }
}

fn floating(x: i32, slots: Vec<Slot<i32, f64>>) -> Viewport<i32, f64> {
    Viewport::Floating {
        rect: Rect { x, y: 0, w: 400, h: 300 },
        inner: Box::new(Viewport::Slots { axis: Axis::Vertical, slots }),
    }
}

/// Root: [1 [3, 4], 2]; floating: [10], [11 [12]].
fn sample() -> Viewports<i32, f64> {
    let mut v = Viewports::single(0, 1.0);
    v.root = Viewport::Slots {
        axis: Axis::Vertical,
        slots: vec![
            branch(1, 100, Axis::Horizontal, vec![leaf(3, 300), leaf(4, 400)]),
            leaf(2, 200),
        ],
    };
    v.floating = vec![
        floating(0, vec![leaf(10, 1000)]),
        floating(50, vec![branch(11, 1100, Axis::Vertical, vec![leaf(12, 1200)])]),
    ];
    v
}

#[test]
fn a_new_world_has_one_slot() {
    let v = Viewports::single(7, 1.0);
    match &v.root {
        Viewport::Slots { axis, slots } => {
            assert_eq!(*axis, Axis::Vertical);
            assert_eq!(slots.len(), 1);
            assert_eq!(slots[0].id, 0);
            assert_eq!(slots[0].camera, 7);
            assert!(slots[0].content.is_none());
            assert_eq!(slots[0].weight, 1.0);
        }
        Viewport::Floating { .. } => panic!("the root of a new world is not floating"),
    }
    assert!(v.floating.is_empty());
    assert_eq!((v.active, v.pointer, v.next_id), (0, 0, 1));
    assert!(v.visible.is_empty());
    assert_eq!(*v.focus_camera(), 7);
}

#[test]
fn find_is_depth_first_and_finds_containers() {
    let v = sample();
    assert_eq!(v.root.find(1).unwrap().camera, 100);
    assert_eq!(v.root.find(3).unwrap().camera, 300);
    assert_eq!(v.root.find(4).unwrap().camera, 400);
    assert_eq!(v.root.find(2).unwrap().camera, 200);
    assert!(v.root.find(10).is_none());
    assert_eq!(v.floating[1].find(12).unwrap().camera, 1200);
    assert!(v.floating[1].find(10).is_none());
}

#[test]
fn of_two_slots_with_one_id_the_first_in_document_order_is_found() {
    let mut v = sample();
    v.root = Viewport::Slots {
        axis: Axis::Vertical,
        slots: vec![branch(1, 1, Axis::Vertical, vec![leaf(5, 51)]), leaf(5, 52)],
    };
    assert_eq!(v.root.find(5).unwrap().camera, 51);
    v.root.find_mut(5).unwrap().camera = 53;
    match &v.root {
        Viewport::Slots { slots, .. } => assert_eq!(slots[1].camera, 52),
        Viewport::Floating { .. } => unreachable!(),
    }
    assert_eq!(v.root.find(5).unwrap().camera, 53);
}

#[test]
fn find_mut_changes_what_find_reads_and_nothing_else() {
    let mut v = sample();
    let s = v.root.find_mut(4).unwrap();
    s.camera = 444;
    s.weight = 2.5;
    assert_eq!(v.root.find(4).unwrap().camera, 444);
    assert_eq!(v.root.find(4).unwrap().weight, 2.5);
    assert_eq!(v.root.find(3).unwrap().camera, 300);
    assert_eq!(v.root.find(1).unwrap().camera, 100);
    assert_eq!(v.root.find(2).unwrap().camera, 200);
    assert!(v.root.find_mut(99).is_none());
}

#[test]
fn first_leaf_descends_through_first_slots() {
    let v = sample();
    assert_eq!(v.root.first_leaf().id, 3);
    assert_eq!(v.floating[0].first_leaf().id, 10);
    assert_eq!(v.floating[1].first_leaf().id, 12);
}

#[test]
fn camera_of_searches_root_and_floating_panes() {
    let v = sample();
    assert_eq!(v.camera_of(4), Some(&400));
    assert_eq!(v.camera_of(10), Some(&1000));
    assert_eq!(v.camera_of(12), Some(&1200));
    assert_eq!(v.camera_of(99), None);
}

#[test]
fn the_root_is_searched_before_the_floating_panes() {
    let mut v = sample();
    v.floating.push(floating(90, vec![leaf(2, 9999)]));
    assert_eq!(v.camera_of(2), Some(&200));
    *v.camera_of_mut(2).unwrap() = 222;
    assert_eq!(v.camera_of(2), Some(&222));
    assert_eq!(v.floating[2].find(2).unwrap().camera, 9999);
}

#[test]
fn a_written_camera_is_read_back() {
    let mut v = sample();
    for id in [1, 2, 3, 4, 10, 11, 12] {
        let before: Vec<Option<i32>> = [1, 2, 3, 4, 10, 11, 12].iter().map(|i| v.camera_of(*i).copied()).collect();
        *v.camera_of_mut(id).unwrap() = -(id as i32);
        for (k, other) in [1, 2, 3, 4, 10, 11, 12].iter().enumerate() {
            if *other == id {
                assert_eq!(v.camera_of(id), Some(&-(id as i32)));
            } else {
                assert_eq!(v.camera_of(*other).copied(), before[k]);
            }
        }
    }
    assert!(v.camera_of_mut(99).is_none());
}

#[test]
fn focus_follows_the_pointer_and_falls_back_to_the_first_leaf() {
    let mut v = sample();
    v.pointer = 12;
    assert_eq!(*v.focus_camera(), 1200);
    *v.focus_camera_mut() = 1;
    assert_eq!(v.camera_of(12), Some(&1));
    v.pointer = 77;
    assert_eq!(*v.focus_camera(), 300);
    *v.focus_camera_mut() = 2;
    assert_eq!(v.camera_of(3), Some(&2));
    assert_eq!(*v.focus_camera(), 2);
}

#[test]
fn a_repeated_id_parts_the_focus_that_is_read_from_the_one_that_is_written() {
    let mut v = sample();
    v.root = Viewport::Slots {
        axis: Axis::Vertical,
        slots: vec![branch(8, 80, Axis::Vertical, vec![leaf(8, 81)])],
    };
    v.floating.clear();
    v.pointer = 77;
    assert_eq!(*v.focus_camera(), 81);
    *v.focus_camera_mut() = 5;
    assert_eq!(*v.focus_camera(), 81);
    assert_eq!(v.camera_of(8), Some(&5));
}
