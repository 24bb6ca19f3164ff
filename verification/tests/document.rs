use compositor_core::camera::{Camera, Point, Transform};
use compositor_core::document::{
    vp_from, vp_to, AxisRec, SlotRec, ViewportRec, ViewportsDoc, ViewportsRecord, TABLE, VERSION,
};
use compositor_core::geometry::Rect;
use compositor_core::viewport::{Axis, Slot, Viewport, Viewports};

type Cam = Camera<f64, u32>;

fn camera(x: f64, y: f64, zoom: f64, transient: u32) -> Cam {
    Camera { transform: Transform { position: Point { x, y }, zoom }, transient }
}

fn sample() -> Viewports<Cam, f64> {
    let inner = Viewport::Slots {
        axis: Axis::Horizontal,
        slots: vec![
            Slot { id: 3, camera: camera(1.5, -2.5, 0.5, 9), content: None, weight: 0.75 },
            Slot { id: 4, camera: camera(4.0, 4.0, 2.0, 9), content: None, weight: 1.25 },
        ],
    };
    let mut v = Viewports::single(camera(0.0, 0.0, 1.0, 0), 1.0);
    v.root = Viewport::Slots {
        axis: Axis::Vertical,
        slots: vec![
            Slot { id: 1, camera: camera(10.0, 20.0, 1.0, 9), content: Some(Box::new(inner)), weight: 2.0 },
            Slot { id: 2, camera: camera(30.0, 40.0, 3.0, 9), content: None, weight: 1.0 },
        ],
    };
    v.floating = vec![Viewport::Floating {
        rect: Rect { x: -5, y: 6, w: 700, h: 80 },
        inner: Box::new(Viewport::Slots {
            axis: Axis::Vertical,
            slots: vec![Slot { id: 5, camera: camera(7.0, 8.0, 9.0, 9), content: None, weight: 1.0 }],
        }),
    }];
    v.active = 2;
    v.pointer = 5;
    v.next_id = 6;
    v
}

#[test]
fn the_table_and_version_are_fixed() {
    assert_eq!(TABLE, "world.viewport");
    assert_eq!(VERSION, 1);
}

#[test]
fn a_world_is_kept_in_one_row() {
    let rows = ViewportsDoc::rows(&sample());
    assert_eq!(rows.len(), 1);
    assert_eq!(rows[0].0, "viewports");
    assert!(rows[0].1.is_empty());
    let rec = &rows[0].2;
    assert_eq!((rec.active, rec.pointer, rec.next_id), (2, 5, 6));
    match &rec.root {
        ViewportRec::Slots { axis, slots } => {
            assert_eq!(*axis, AxisRec::Vertical);
            assert_eq!(slots.len(), 2);
            assert_eq!(slots[0].id, 1);
            assert_eq!(slots[0].pos, (10.0, 20.0));
            assert_eq!(slots[0].zoom, 1.0);
            assert_eq!(slots[0].weight, 2.0);
            match slots[0].content.as_deref() {
                Some(ViewportRec::Slots { axis, slots }) => {
                    assert_eq!(*axis, AxisRec::Horizontal);
                    assert_eq!(slots[0].pos, (1.5, -2.5));
                    assert_eq!(slots[0].zoom, 0.5);
                    assert_eq!(slots[0].weight, 0.75);
                    assert_eq!(slots[1].id, 4);
                    assert!(slots[1].content.is_none());
                }
                _ => panic!("the content is kept"),
            }
            assert!(slots[1].content.is_none());
        }
        ViewportRec::Floating { .. } => panic!("the root is kept as it is"),
    }
    assert_eq!(rec.floating.len(), 1);
    match &rec.floating[0] {
        ViewportRec::Floating { rect, inner } => {
            assert_eq!(*rect, (-5, 6, 700, 80));
            assert!(matches!(&**inner, ViewportRec::Slots { slots, .. } if slots[0].id == 5));
        }
        ViewportRec::Slots { .. } => panic!("the pane is kept as it is"),
    }
}

#[test]
fn viewports_come_back_from_their_row() {
    let saved = sample();
    let mut rows = ViewportsDoc::rows(&saved);
    let (id, _, rec) = rows.remove(0);
    let mut v = Viewports::single(camera(0.0, 0.0, 1.0, 0), 1.0);
    v.visible.insert(2, vec![uuid::Uuid::from_u128(1)]);
    ViewportsDoc::apply(&mut v, &id, rec);
    assert_eq!((v.active, v.pointer, v.next_id), (2, 5, 6));
    for id in [1, 2, 3, 4, 5] {
        let (a, b) = (v.camera_of(id).unwrap(), saved.camera_of(id).unwrap());
        assert_eq!(a.transform.position.x, b.transform.position.x);
        assert_eq!(a.transform.position.y, b.transform.position.y);
        assert_eq!(a.transform.zoom, b.transform.zoom);
        assert_eq!(b.transient, 9);
        assert_eq!(a.transient, 0);
    }
    assert_eq!(v.root.find(3).unwrap().weight, 0.75);
    assert_eq!(v.focus_camera().transform.zoom, 9.0);
    match &v.floating[0] {
        Viewport::Floating { rect, .. } => assert_eq!(*rect, Rect { x: -5, y: 6, w: 700, h: 80 }),
        Viewport::Slots { .. } => panic!("the pane comes back as it was"),
    }
    assert_eq!(v.visible.get(&2).map(|w| w.len()), Some(1));
}

#[test]
fn a_row_replaces_the_whole_layout() {
    let mut v = sample();
    let rec = ViewportsRecord {
        root: ViewportRec::Slots {
            axis: AxisRec::Horizontal,
            slots: vec![SlotRec { id: 40, pos: (1.0, 2.0), zoom: 3.0, weight: 4.0, content: None }],
        },
        floating: Vec::new(),
        active: 40,
        pointer: 41,
        next_id: 42,
    };
    ViewportsDoc::apply(&mut v, "viewports", rec);
    assert!(v.floating.is_empty());
    assert!(v.camera_of(2).is_none());
    assert!(matches!(&v.root, Viewport::Slots { axis: Axis::Horizontal, slots } if slots.len() == 1));
    assert_eq!((v.active, v.pointer, v.next_id), (40, 41, 42));
    assert_eq!(v.focus_camera().transform.zoom, 3.0);
}

#[test]
fn a_record_that_is_rebuilt_and_recorded_again_is_the_record() {
    let rec = ViewportRec::Floating {
        rect: (-3, 4, 500, 600),
        inner: Box::new(ViewportRec::Slots {
            axis: AxisRec::Horizontal,
            slots: vec![
                SlotRec {
                    id: 9,
                    pos: (1.25, -2.5),
                    zoom: 0.5,
                    weight: 3.0,
                    content: Some(Box::new(ViewportRec::Slots { axis: AxisRec::Vertical, slots: Vec::new() })),
                },
                SlotRec { id: 8, pos: (0.0, 7.0), zoom: 2.0, weight: 1.0, content: None },
            ],
        }),
    };
    let rebuilt: Viewport<Cam, f64> = vp_from(&rec);
    assert_eq!(vp_to(&rebuilt), rec);
    let mut row = ViewportsDoc::rows(&sample()).remove(0).2;
    row.floating.push(rec);
    let copy = ViewportsDoc::rows(&sample()).remove(0).2;
    let mut v = Viewports::single(camera(0.0, 0.0, 1.0, 0), 1.0);
    ViewportsDoc::apply(&mut v, "viewports", copy);
    assert_eq!(ViewportsDoc::rows(&v).remove(0).2, ViewportsDoc::rows(&sample()).remove(0).2);
    assert_ne!(ViewportsDoc::rows(&v).remove(0).2, row);
}
