use compositor_core::coordinate::{find_region, Nearness, Region, Separator, GRAB_MARGIN, MIN_EXTENT};
use compositor_core::display::OutputSwitchRequest;
use compositor_core::geometry::Rect;
use compositor_core::kernel::{DriverSeeds, Drivers};
use compositor_core::orchestrator::{
    Orchestrator, RenderTarget, SeparatorDrag, Status, StatusSession, World, Worlds,
};
use compositor_core::pipe::Platform;
use compositor_core::viewport::{Axis, Slot, Viewport, Viewports};

struct Host;

impl Platform for Host {
    type Output = &'static str;
    type Scanout = u32;
    type HdrCaps = ();
    type ModeRevert = ();
    type Timer = u32;
    type Summary = &'static str;
}

impl Drivers for Host {
    type Audio = u8;
    type Media = u16;
    type Sampler = ();
    type Rpc = &'static str;
    type Gpu = ();
    type Watchdog = ();
    type LidPosition = ();
    type DisplayRequest = ();
    type Logind = ();
    type CaptureRegistry = ();
    type Capture = &'static str;
    type Overlay = bool;
    type ModeRequest = ();
    type ModeResult = ();
    type Settings = bool;
}

type Drawn = Vec<(uuid::Uuid, u8)>;
type Session = Orchestrator<i32, f64, Drawn, Host>;

fn leaf(id: u64, camera: i32) -> Slot<i32, f64> {
    Slot { id, camera, content: None, weight: 1.0 }
}

fn pane(rect: Rect, id: u64, camera: i32) -> Viewport<i32, f64> {
    Viewport::Floating {
        rect,
        inner: Box::new(Viewport::Slots { axis: Axis::Vertical, slots: vec![leaf(id, camera)] }),
    }
}

fn rect(x: i32, y: i32, w: i32, h: i32) -> Rect {
    Rect { x, y, w, h }
}

fn world(base: i32) -> World<i32, f64, Drawn> {
    let mut viewports = Viewports::single(0, 1.0);
    viewports.root = Viewport::Slots { axis: Axis::Vertical, slots: vec![leaf(1, base + 1), leaf(2, base + 2)] };
    viewports.floating = vec![pane(rect(100, 100, 400, 300), 3, base + 3), pane(rect(300, 200, 400, 300), 4, base + 4)];
    viewports.pointer = 2;
    let storage = vec![(uuid::Uuid::from_u128(base as u128 + 1), 0), (uuid::Uuid::from_u128(base as u128 + 2), 9)];
    World { viewports, storage }
}

fn seeds() -> DriverSeeds<Host> {
    DriverSeeds {
        audio: None,
        media: 5,
        rpc: "rpc",
        capture: "idle",
        display_snapshot: "none",
        selection_overlay: false,
        settings: true,
    }
}

/// Two worlds; the second has the focus.
fn session() -> Session {
    let worlds = Worlds { list: vec![world(10), world(20)], spawn_target: 1 };
    Orchestrator::new(std::time::Instant::now(), true, seeds(), worlds, Host)
}

fn regions() -> Vec<Region> {
    vec![Region { slot: 1, rect: rect(0, 0, 956, 1080) }, Region { slot: 2, rect: rect(964, 0, 956, 1080) }]
}

const BOUNDS: Rect = Rect { x: 0, y: 0, w: 1920, h: 1080 };

fn near(at: f64, low: i64, high: i64, margin: i64) -> Nearness {
    let (low, high, margin) = (low as f64, high as f64, margin as f64);
    if at < low - margin || at > high + margin {
        None
    } else {
        Some(((at - low).abs() <= margin, (at - high).abs() <= margin))
    }
}

fn shift(now: f64, start: f64) -> i32 {
    (now - start).round() as i32
}

fn stretch(pos: i32, len: i32, low: bool, high: bool, now: f64, start: f64, min: i64) -> (i32, i32) {
    let (by, min) = (now - start, min as f64);
    let mut a = pos as f64;
    let mut b = a + len as f64;
    if low {
        a = (a + by).min(b - min);
    }
    if high {
        b = (b + by).max(a + min);
    }
    (a.round() as i32, (b.round() - a.round()) as i32)
}

fn split(d: &SeparatorDrag<f64>, at: f64) -> Option<(f64, f64)> {
    let combined = d.a_len + d.b_len;
    if combined <= 1.0 {
        return None;
    }
    let min = 40.0_f64.min(combined / 3.0);
    let new_a = (d.a_len + (at - d.start_along)).clamp(min, combined - min);
    let a = d.sum_weight * (new_a / combined);
    Some((a, d.sum_weight - a))
}

fn floating_rect(o: &Session, index: usize) -> Rect {
    match &o.viewports().floating[index] {
        Viewport::Floating { rect, .. } => *rect,
        Viewport::Slots { .. } => panic!("a floating pane"),
    }
}

#[test]
fn a_session_starts_running_with_nothing_asked() {
    let o = session();
    assert!(o.render_target.is_none());
    assert!(o.separator_drag.is_none());
    assert!(o.floating_drag.is_none());
    assert!(matches!(o.status, Status::Running));
    assert!(!o.lock_engage);
    assert!(o.__set_picker.is_none());
    assert_eq!(o.status_session, StatusSession::Active);
    assert_eq!(o.pilot_tick, 0);
    assert_eq!(o.worlds.spawn_target, 1);
}

#[test]
fn the_driver_slots_start_with_their_seeds() {
    let o = session();
    let k = &o.kernel;
    assert_eq!(k.audio, None);
    assert_eq!(k.media, Some(5));
    assert_eq!(k.rpc, "rpc");
    assert_eq!(k.capture, "idle");
    assert!(k.nested);
    assert!(k.settings);
    assert!(!k.selection_overlay);
    assert!(!k.vblank_seen);
    assert!(k.sampler.is_none() && k.gpu_binding.is_none() && k.resume_watchdog.is_none());
    assert!(k.lid_position.is_none() && k.display_request.is_none() && k.logind.is_none());
    assert!(k.capture_registry.is_none() && k.mode_request.is_none() && k.mode_result.is_none());
    assert!(!k.display.display_off);
    assert_eq!(k.display.display_snapshot, "none");
    assert_eq!(k.display.modes_snapshot.edid_key, "");
    assert!(k.display.outputs_snapshot.displays.is_empty());
    assert!(matches!(k.display.switch_request, None::<OutputSwitchRequest>));
    assert_eq!(k.display.switch_result, None);
}

#[test]
fn the_camera_is_that_of_the_pointed_pane_of_the_focused_world() {
    let mut o = session();
    assert_eq!(*o.camera(), 22);
    o.viewports_mut().pointer = 4;
    assert_eq!(*o.camera(), 24);
    o.viewports_mut().pointer = 99;
    assert_eq!(*o.camera(), 21);
    o.worlds.spawn_target = 0;
    assert_eq!(*o.camera(), 12);
}

#[test]
fn inside_the_render_loop_the_camera_is_that_of_the_drawn_pane() {
    let mut o = session();
    o.render_target = Some(RenderTarget { slot: 3, origin_logical: (100.0, 100.0), size_physical: (400.0, 300.0) });
    assert_eq!(*o.camera(), 23);
    *o.camera_mut() = 230;
    assert_eq!(*o.camera(), 230);
    assert_eq!(o.viewports().camera_of(2), Some(&22));
    let (target, camera) = o.viewport_context().unwrap();
    assert_eq!(target.slot, 3);
    assert_eq!(target.size_physical, (400.0, 300.0));
    assert_eq!(*camera, 230);
    o.render_target = Some(RenderTarget { slot: 99, origin_logical: (0.0, 0.0), size_physical: (1.0, 1.0) });
    assert_eq!(*o.camera(), 22);
    *o.camera_mut() = 220;
    assert_eq!(o.viewports().camera_of(2), Some(&220));
    o.render_target = None;
    assert!(o.viewport_context().is_none());
}

#[test]
fn a_written_camera_is_the_one_that_is_read() {
    let mut o = session();
    for pointer in [1, 2, 3, 4] {
        o.viewports_mut().pointer = pointer;
        *o.camera_mut() = 1000 + pointer as i32;
        assert_eq!(*o.camera(), 1000 + pointer as i32);
    }
    assert_eq!(o.worlds.list[0].viewports.camera_of(1), Some(&11));
}

#[test]
fn a_pane_is_projected_where_it_lies() {
    let o = session();
    let r = regions();
    assert_eq!(o.size_ctx_viewport(1, &r), Some((rect(0, 0, 956, 1080), &21)));
    assert_eq!(o.size_ctx_viewport(3, &r), None);
    let stale = vec![Region { slot: 50, rect: BOUNDS }];
    assert_eq!(o.size_ctx_viewport(50, &stale), Some((BOUNDS, &22)));
    assert_eq!(find_region(&r, 2), Some(rect(964, 0, 956, 1080)));
    assert_eq!(find_region(&r, 7), None);
}

#[test]
fn the_focus_pane_falls_back_to_the_whole_output() {
    let mut o = session();
    assert_eq!(o.focus_pane_context(BOUNDS, &regions()), (rect(964, 0, 956, 1080), &22));
    o.viewports_mut().pointer = 4;
    assert_eq!(o.focus_pane_context(BOUNDS, &regions()), (BOUNDS, &24));
}

#[test]
fn the_pointer_follows_the_pane_under_the_cursor() {
    let mut o = session();
    let hit = Some((1, rect(0, 0, 956, 1080)));
    assert_eq!(o.pointer_context(BOUNDS, &regions(), hit), (rect(0, 0, 956, 1080), &21));
    assert_eq!(o.viewports().pointer, 1);
    assert_eq!(*o.camera(), 21);
}

#[test]
fn over_a_gap_the_pointer_stays_where_it_was() {
    let mut o = session();
    assert_eq!(o.pointer_context(BOUNDS, &regions(), None), (rect(964, 0, 956, 1080), &22));
    assert_eq!(o.viewports().pointer, 2);
    o.viewports_mut().pointer = 4;
    assert_eq!(o.pointer_context(BOUNDS, &regions(), None), (BOUNDS, &24));
    assert_eq!(o.viewports().pointer, 4);
}

#[test]
fn a_drag_freezes_the_pointer() {
    let mut o = session();
    let hit = Some((1, rect(0, 0, 956, 1080)));
    assert!(o.try_begin_floating_drag((100.0, 250.0), false, near));
    assert_eq!(o.pointer_context(BOUNDS, &regions(), hit), (rect(964, 0, 956, 1080), &22));
    assert_eq!(o.viewports().pointer, 2);
    o.end_floating_drag();
    let bar = Separator { a: 1, b: 2, axis: Axis::Vertical, a_len: 956.0, b_len: 956.0 };
    assert!(o.try_begin_separator_drag(Some(bar), (960.0, 500.0), 1.0, |a, b| a + b));
    assert_eq!(o.pointer_context(BOUNDS, &regions(), hit).0, rect(964, 0, 956, 1080));
    assert_eq!(o.viewports().pointer, 2);
    o.end_separator_drag();
    assert_eq!(o.pointer_context(BOUNDS, &regions(), hit).0, rect(0, 0, 956, 1080));
    assert_eq!(o.viewports().pointer, 1);
}

#[test]
fn a_separator_drag_divides_the_weights() {
    let mut o = session();
    assert!(!o.try_begin_separator_drag(None, (960.0, 500.0), 1.0, |a, b| a + b));
    assert!(!o.update_separator_drag((970.0, 500.0), split));
    let bar = Separator { a: 1, b: 2, axis: Axis::Vertical, a_len: 500.0, b_len: 500.0 };
    assert!(o.try_begin_separator_drag(Some(bar), (960.0, 500.0), 1.0, |a, b| a + b));
    {
        let d = o.separator_drag.as_ref().unwrap();
        assert_eq!((d.a, d.b, d.start_along, d.sum_weight), (1, 2, 960.0, 2.0));
    }
    assert!(o.update_separator_drag((1210.0, 900.0), split));
    assert_eq!(o.viewports().root.find(1).unwrap().weight, 1.5);
    assert_eq!(o.viewports().root.find(2).unwrap().weight, 0.5);
    assert!(o.update_separator_drag((9000.0, 0.0), split));
    assert_eq!(o.viewports().root.find(1).unwrap().weight, 2.0 * (960.0 / 1000.0));
    assert_eq!(o.viewports().camera_of(1), Some(&21));
    assert_eq!(o.worlds.list[0].viewports.root.find(1).unwrap().weight, 1.0);
    o.end_separator_drag();
    assert!(o.separator_drag.is_none());
    assert!(!o.update_separator_drag((0.0, 0.0), split));
}

#[test]
fn a_horizontal_separator_follows_the_other_coordinate() {
    let mut o = session();
    let bar = Separator { a: 1, b: 2, axis: Axis::Horizontal, a_len: 300.0, b_len: 100.0 };
    assert!(o.try_begin_separator_drag(Some(bar), (0.0, 300.0), 1.0, |a, b| a + b));
    assert!(o.update_separator_drag((999.0, 200.0), split));
    assert_eq!(o.viewports().root.find(1).unwrap().weight, 1.0);
    assert_eq!(o.viewports().root.find(2).unwrap().weight, 1.0);
}

#[test]
fn a_split_inside_a_floating_pane_is_divided() {
    let mut o = session();
    o.viewports_mut().floating[0] = Viewport::Floating {
        rect: rect(100, 100, 400, 300),
        inner: Box::new(Viewport::Slots { axis: Axis::Vertical, slots: vec![leaf(7, 70), leaf(8, 80)] }),
    };
    let bar = Separator { a: 7, b: 8, axis: Axis::Vertical, a_len: 100.0, b_len: 100.0 };
    assert!(o.try_begin_separator_drag(Some(bar), (100.0, 0.0), 1.0, |a, b| a + b));
    assert_eq!(o.separator_drag.as_ref().unwrap().sum_weight, 2.0);
    assert!(o.update_separator_drag((150.0, 0.0), split));
    let panes = &o.viewports().floating;
    assert_eq!(panes[0].find(7).unwrap().weight, 1.5);
    assert_eq!(panes[0].find(8).unwrap().weight, 0.5);
    assert_eq!((panes[0].find(7).unwrap().camera, panes[0].find(8).unwrap().camera), (70, 80));
    assert_eq!(panes[1].find(4).unwrap().weight, 1.0);
    assert_eq!(o.viewports().root.find(1).unwrap().weight, 1.0);
    assert_eq!(floating_rect(&o, 0), rect(100, 100, 400, 300));
}

#[test]
fn the_weights_of_both_slots_are_summed_wherever_they_are() {
    let mut o = session();
    o.viewports_mut().root.find_mut(1).unwrap().weight = 3.0;
    o.viewports_mut().floating[0].find_mut(3).unwrap().weight = 2.5;
    let bar = Separator { a: 1, b: 3, axis: Axis::Vertical, a_len: 0.5, b_len: 0.5 };
    assert!(o.try_begin_separator_drag(Some(bar), (0.0, 0.0), 1.0, |a, b| a + b));
    assert_eq!(o.separator_drag.as_ref().unwrap().sum_weight, 5.5);
    assert!(o.update_separator_drag((5.0, 0.0), split));
    assert_eq!(o.viewports().root.find(1).unwrap().weight, 3.0);
    assert_eq!(o.viewports().floating[0].find(3).unwrap().weight, 2.5);
}

#[test]
fn a_slot_that_is_nowhere_weighs_one() {
    let mut o = session();
    o.viewports_mut().root.find_mut(1).unwrap().weight = 3.0;
    let bar = Separator { a: 1, b: 99, axis: Axis::Vertical, a_len: 500.0, b_len: 500.0 };
    assert!(o.try_begin_separator_drag(Some(bar), (0.0, 0.0), 1.0, |a, b| a + b));
    assert_eq!(o.separator_drag.as_ref().unwrap().sum_weight, 4.0);
    assert!(o.update_separator_drag((0.0, 0.0), split));
    assert_eq!(o.viewports().root.find(1).unwrap().weight, 2.0);
    assert_eq!(o.viewports().root.find(2).unwrap().weight, 1.0);
}

#[test]
fn the_topmost_pane_near_the_cursor_is_gripped() {
    assert_eq!((GRAB_MARGIN, MIN_EXTENT), (24, 100));
    let mut o = session();
    assert!(o.try_begin_floating_drag((500.0, 210.0), true, near));
    let d = o.floating_drag.as_ref().unwrap();
    assert_eq!(d.index, 1);
    assert!(d.resize);
    assert_eq!((d.left, d.top, d.right, d.bottom), (false, true, false, false));
    assert_eq!(d.start_cursor, (500.0, 210.0));
    assert_eq!(d.start_rect, rect(300, 200, 400, 300));
}

#[test]
fn a_covered_edge_is_gripped_where_the_upper_pane_is_not() {
    let mut o = session();
    assert!(o.try_begin_floating_drag((77.0, 100.0), false, near));
    let d = o.floating_drag.as_ref().unwrap();
    assert_eq!(d.index, 0);
    assert_eq!((d.left, d.top, d.right, d.bottom), (true, true, false, false));
}

#[test]
fn the_inside_of_a_pane_and_the_outside_are_not_gripped() {
    let mut o = session();
    assert!(!o.try_begin_floating_drag((200.0, 150.0), false, near));
    assert!(!o.try_begin_floating_drag((75.0, 100.0), false, near));
    assert!(!o.try_begin_floating_drag((1500.0, 900.0), true, near));
    assert!(o.floating_drag.is_none());
}

#[test]
fn a_pane_is_moved_as_it_is() {
    let mut o = session();
    assert!(!o.update_floating_drag((0.0, 0.0), shift, stretch));
    assert!(o.try_begin_floating_drag((100.0, 250.0), false, near));
    assert!(o.update_floating_drag((110.4, 239.5), shift, stretch));
    assert_eq!(floating_rect(&o, 0), rect(110, 89, 400, 300));
    assert!(o.update_floating_drag((100.0, 250.0), shift, stretch));
    assert_eq!(floating_rect(&o, 0), rect(100, 100, 400, 300));
    assert_eq!(floating_rect(&o, 1), rect(300, 200, 400, 300));
    assert_eq!(o.viewports().camera_of(3), Some(&23));
    o.end_floating_drag();
    assert!(!o.update_floating_drag((500.0, 500.0), shift, stretch));
    assert_eq!(floating_rect(&o, 0), rect(100, 100, 400, 300));
}

#[test]
fn a_pane_is_resized_by_the_gripped_edges_down_to_the_least_extent() {
    let mut o = session();
    assert!(o.try_begin_floating_drag((100.0, 100.0), true, near));
    assert!(o.update_floating_drag((150.0, 80.0), shift, stretch));
    assert_eq!(floating_rect(&o, 0), rect(150, 80, 350, 320));
    assert!(o.update_floating_drag((5000.0, 5000.0), shift, stretch));
    assert_eq!(floating_rect(&o, 0), rect(400, 300, 100, 100));
    o.end_floating_drag();
}

#[test]
fn a_side_that_is_not_gripped_stays() {
    let mut o = session();
    o.viewports_mut().floating[0] = pane(rect(10, 20, 190, 400), 3, 23);
    assert!(o.try_begin_floating_drag((10.0, 200.0), true, near));
    assert!(o.update_floating_drag((10.5, 999.0), shift, stretch));
    assert_eq!(floating_rect(&o, 0), rect(11, 20, 189, 400));
    assert!(o.update_floating_drag((99.7, 200.0), shift, stretch));
    assert_eq!(floating_rect(&o, 0), rect(100, 20, 100, 400));
    assert!(o.update_floating_drag((900.0, 200.0), shift, stretch));
    assert_eq!(floating_rect(&o, 0), rect(100, 20, 100, 400));
}

#[test]
fn a_drag_of_a_pane_that_is_gone_changes_nothing() {
    let mut o = session();
    assert!(o.try_begin_floating_drag((700.0, 400.0), true, near));
    o.viewports_mut().floating.pop();
    assert!(o.update_floating_drag((900.0, 900.0), shift, stretch));
    assert_eq!(o.viewports().floating.len(), 1);
    assert_eq!(floating_rect(&o, 0), rect(100, 100, 400, 300));
    o.viewports_mut().floating.push(Viewport::Slots { axis: Axis::Vertical, slots: Vec::new() });
    assert!(o.update_floating_drag((900.0, 900.0), shift, stretch));
    assert!(matches!(o.viewports().floating[1], Viewport::Slots { .. }));
}

#[test]
fn drawables_are_listed_topmost_first() {
    let mut o = session();
    let ids = o.drawable_order(|kept: &Drawn| kept.clone());
    assert_eq!(ids, vec![uuid::Uuid::from_u128(22), uuid::Uuid::from_u128(21)]);
    o.spatial_storage_mut().clear();
    assert!(o.spatial_storage().is_empty());
    assert!(o.drawable_order(|kept: &Drawn| kept.clone()).is_empty());
    o.worlds.spawn_target = 0;
    assert_eq!(o.drawable_order(|kept: &Drawn| kept.clone()).len(), 2);
}
