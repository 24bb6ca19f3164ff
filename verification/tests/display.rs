use compositor_core::display::{
    ApplyResult, Display, DisplayInfo, DisplaySlots, OutputSwitchRequest, OutputsSnapshot, SwitchTask,
};
use compositor_core::output::{Connector, DrmMode, ModeInfo, ModeRequest, Preferences, Profile};
use compositor_core::pipe::{Built, OutputMode, OutputPipe, Platform, RenderContext};
use compositor_core::reconcile::{OutputChange, ReconcileAction, ReconcileStage};
use compositor_core::switch::{SwitchAction, SwitchStage, CONFIRM_TIMEOUT};

#[derive(Debug)]
struct Host;

impl Platform for Host {
    type Output = u32;
    type Scanout = u32;
    type HdrCaps = &'static str;
    type ModeRevert = ();
    type Timer = u32;
    type Summary = u32;
}

fn drm(width: u16) -> DrmMode {
    DrmMode { width, height: 1080, vrefresh: 60 }
}

fn info(width: u16) -> ModeInfo {
    ModeInfo { width, height: 1080, refresh_mhz: 60000 }
}

fn built(connector: u32, width: u16) -> Built<Host> {
    Built {
        drm_output: connector,
        drm_mode: drm(width),
        mode: OutputMode { width: width as i32, height: 1080, refresh: 60000 },
        modes: vec![drm(width), drm(640)],
        connector,
        crtc: 100 + connector,
        hdr: "caps",
        hdr_capable: true,
        hdr_wanted: true,
    }
}

fn pipe(connector: u32, width: u16, lit: bool) -> OutputPipe<Host> {
    OutputPipe {
        crtc: 100 + connector,
        x: 0,
        mode: OutputMode { width: width as i32, height: 1080, refresh: 60000 },
        output: connector,
        drm_output: if lit { Some(connector) } else { None },
        hdr_caps: "old",
        hdr_active: false,
        hdr_signalled: true,
        connector,
        current_drm_mode: drm(width),
        modes: Vec::new(),
        mode_revert: None,
        in_flight: true,
    }
}

/// A display with the outputs side by side.
fn display(mut outputs: Vec<OutputPipe<Host>>) -> Display<Host> {
    let mut x = 0;
    for p in &mut outputs {
        p.x = x;
        x += p.mode.width;
    }
    Display {
        ctx: RenderContext { outputs, output_revert: None, vulkan_mode: true },
        slots: DisplaySlots::new(0),
    }
}

fn connector(handle: u32, key: &str) -> Connector {
    Connector { handle, connected: true, key: key.to_string() }
}

fn monitors() -> Vec<Connector> {
    vec![connector(1, "one"), connector(2, "two")]
}

fn snapshot(keys: &[(&str, bool)]) -> OutputsSnapshot {
    OutputsSnapshot {
        displays: keys
            .iter()
            .map(|(k, active)| DisplayInfo {
                edid_key: k.to_string(),
                active: *active,
                current: Some(info(1920)),
                available: vec![info(1920), info(640)],
            })
            .collect(),
    }
}

fn no_prefs() -> Preferences {
    Preferences { profiles: Vec::new(), default_mode: None }
}

fn switch_survey(active: u32, lit: &[(u32, u16)]) -> SwitchAction {
    SwitchAction::Survey { active, lit: lit.iter().map(|(c, w)| (*c, info(*w))).collect() }
}

fn survey(active: u32, lit: &[(u32, u16)]) -> ReconcileAction {
    ReconcileAction::Survey { active, lit: lit.iter().map(|(c, w)| (*c, info(*w))).collect() }
}

fn extra(handle: u32, requested: Option<ModeInfo>, busy: &[u32]) -> ReconcileAction {
    ReconcileAction::BuildExtra { handle, requested, busy: busy.to_vec() }
}

fn connectors_of(d: &Display<Host>) -> Vec<(u32, bool)> {
    d.ctx.outputs.iter().map(|p| (p.connector, p.drm_output.is_some())).collect()
}

#[test]
fn a_built_output_becomes_the_primary() {
    let mut d = display(vec![pipe(1, 1920, true), pipe(7, 800, true)]);
    assert_eq!(d.ctx.bring_up(Ok(built(2, 2560))), Ok(()));
    let p = &d.ctx.outputs[0];
    assert_eq!(p.drm_output, Some(2));
    assert_eq!(p.connector, 2);
    assert_eq!(p.mode.width, 2560);
    assert_eq!(p.current_drm_mode, drm(2560));
    assert_eq!(p.modes.len(), 2);
    assert_eq!(p.hdr_caps, "caps");
    assert!(p.hdr_active);
    assert!(!p.hdr_signalled);
    assert_eq!(p.crtc, 102);
    assert_eq!(p.x, 0);
    assert_eq!(p.output, 1);
    assert!(p.in_flight);
    assert_eq!((d.ctx.outputs[1].connector, d.ctx.outputs[1].x), (7, 1920));
    assert_eq!(d.ctx.busy(), vec![102, 107]);
}

#[test]
fn a_failed_build_leaves_the_primary_dark() {
    let mut d = display(vec![pipe(1, 1920, true)]);
    assert_eq!(d.ctx.bring_up(Err("no bandwidth".to_string())), Err("no bandwidth".to_string()));
    assert_eq!(d.ctx.outputs[0].drm_output, None);
    assert_eq!(d.ctx.outputs[0].connector, 1);
    assert!(!d.ctx.any_live());
}

#[test]
fn high_dynamic_range_needs_will_means_and_renderer() {
    for (wanted, capable, vulkan) in [(true, true, true), (false, true, true), (true, false, true), (true, true, false)] {
        let mut d = display(vec![pipe(1, 1920, true)]);
        d.ctx.vulkan_mode = vulkan;
        let mut b = built(1, 1920);
        b.hdr_wanted = wanted;
        b.hdr_capable = capable;
        d.ctx.bring_up(Ok(b)).unwrap();
        assert_eq!(d.ctx.outputs[0].hdr_active, wanted && capable && vulkan);
    }
}

#[test]
fn an_additional_output_lies_to_the_right() {
    let mut d = display(vec![pipe(1, 1920, true), pipe(2, 1280, false)]);
    assert_eq!(d.ctx.busy(), vec![101, 102]);
    assert_eq!(d.ctx.add_output(55, Ok(built(3, 2560))), Ok(3200));
    let p = &d.ctx.outputs[2];
    assert_eq!((p.crtc, p.x, p.output, p.connector, p.drm_output), (103, 3200, 55, 3, Some(3)));
    assert!(p.mode_revert.is_none());
    assert!(!p.in_flight);
    assert!(!p.hdr_signalled);
    assert_eq!(d.ctx.add_output(56, Err("no controller".to_string())), Err("no controller".to_string()));
    assert_eq!(d.ctx.outputs.len(), 3);
}

#[test]
fn an_added_output_overlaps_no_output_that_was_kept() {
    let mut d = display(vec![pipe(1, 1920, true), pipe(2, 1920, true), pipe(3, 1920, true)]);
    let (_, stage) = d.reconcile();
    let scan = vec![connector(1, "one"), connector(3, "three"), connector(4, "four"), connector(5, "five")];
    let (stage, action, dropped) = stage.on_connectors(&mut d, scan, &no_prefs());
    assert_eq!(dropped.len(), 1);
    assert_eq!(action, extra(4, None, &[101, 103]));
    assert_eq!(d.ctx.outputs.iter().map(|p| p.x).collect::<Vec<i32>>(), vec![0, 3840]);
    let (stage, _, placed) = stage.on_added(&mut d, 50, Ok(built(4, 1280)), &no_prefs());
    assert_eq!(placed, Ok(5760));
    let (_, _, placed) = stage.on_added(&mut d, 51, Ok(built(5, 800)), &no_prefs());
    assert_eq!(placed, Ok(7040));
    for (i, a) in d.ctx.outputs.iter().enumerate() {
        for b in &d.ctx.outputs[i + 1..] {
            assert!(a.x + a.mode.width <= b.x || b.x + b.mode.width <= a.x);
        }
    }
}

#[test]
fn a_wide_output_at_the_left_does_not_hide_one_that_reaches_farther() {
    let mut d = display(vec![pipe(1, 1000, true), pipe(2, 1000, true)]);
    d.ctx.outputs[0].x = 5000;
    assert_eq!(d.ctx.add_output(50, Ok(built(3, 800))), Ok(6000));
}

#[test]
fn only_driven_pipes_are_listed_with_their_modes() {
    let d = display(vec![pipe(1, 1920, false), pipe(2, 1280, true), pipe(3, 800, true)]);
    assert_eq!(d.ctx.lit_modes(), vec![(2, info(1280)), (3, info(800))]);
    assert!(d.ctx.any_live());
}

#[test]
fn a_request_is_taken_once() {
    let mut d = display(vec![pipe(1, 1920, true)]);
    assert!(d.slots.drain().is_none());
    d.slots.switch_request = Some(OutputSwitchRequest::Apply { edid_key: "two".to_string(), mode: Some(info(640)) });
    assert!(matches!(d.slots.drain(), Some(SwitchTask::Apply { edid_key, requested: Some(m) }) if edid_key == "two" && m == info(640)));
    assert!(d.slots.drain().is_none());
    d.slots.switch_request = Some(OutputSwitchRequest::Confirm);
    assert!(matches!(d.slots.drain(), Some(SwitchTask::Finish { revert: false })));
    d.slots.switch_request = Some(OutputSwitchRequest::Revert);
    assert!(matches!(d.slots.drain(), Some(SwitchTask::Finish { revert: true })));
}

#[test]
fn snapshots_show_the_first_active_monitor() {
    let mut d = display(vec![pipe(1, 1920, true)]);
    d.slots.write_snapshots(snapshot(&[("a", false), ("b", true), ("c", true)]), 3);
    assert_eq!(d.slots.modes_snapshot.edid_key, "b");
    assert_eq!(d.slots.modes_snapshot.current, Some(info(1920)));
    assert_eq!(d.slots.modes_snapshot.available, vec![info(1920), info(640)]);
    assert_eq!(d.slots.outputs_snapshot.displays.len(), 3);
    assert_eq!(d.slots.display_snapshot, 3);
    d.slots.write_snapshots(snapshot(&[("a", false)]), 4);
    assert_eq!(d.slots.modes_snapshot.edid_key, "b");
    assert_eq!(d.slots.outputs_snapshot.displays.len(), 1);
    assert_eq!(d.slots.display_snapshot, 4);
}

#[test]
fn going_dark_blanks_the_snapshots_and_going_dark_on_the_primary_does_not() {
    let mut d = display(vec![pipe(1, 1920, true), pipe(2, 1280, true)]);
    d.slots.write_snapshots(snapshot(&[("a", true)]), 3);
    d.go_dark_primary();
    assert_eq!(connectors_of(&d), vec![(1, false), (2, true)]);
    assert!(d.slots.display_off);
    assert_eq!(d.slots.modes_snapshot.edid_key, "a");
    d.go_dark();
    assert!(d.slots.display_off);
    assert_eq!(d.slots.modes_snapshot.edid_key, "");
    assert_eq!(d.slots.modes_snapshot.current, None);
    assert!(d.slots.modes_snapshot.available.is_empty());
    assert!(d.slots.outputs_snapshot.displays.is_empty());
    assert_eq!(d.slots.display_snapshot, 3);
}

/// Switches from monitor one to monitor two, up to the provisional result.
fn provisional() -> Display<Host> {
    let mut d = display(vec![pipe(1, 1920, true)]);
    let (cancelled, stage, action) = d.apply("two".to_string(), Some(info(2560)));
    assert_eq!(cancelled, None);
    assert_eq!(action, SwitchAction::Scan);
    let (stage, action) = stage.on_connectors(&mut d, &monitors());
    assert_eq!(action, SwitchAction::Build { handle: 2, requested: Some(info(2560)) });
    assert_eq!(connectors_of(&d), vec![(1, false)]);
    let (stage, action) = stage.on_built(&mut d, Ok(built(2, 2560)));
    assert_eq!(action, SwitchAction::Arm);
    let (stage, action) = stage.on_armed(&mut d, 77);
    assert_eq!(action, switch_survey(2, &[(2, 2560)]));
    assert_eq!(d.slots.switch_result, None);
    let (stage, action) = stage.on_snapshots(&mut d, snapshot(&[("one", false), ("two", true)]), 2);
    assert_eq!(action, SwitchAction::Redraw);
    assert!(matches!(stage, SwitchStage::Finished));
    d
}

#[test]
fn a_switch_is_provisional_until_kept() {
    assert_eq!(CONFIRM_TIMEOUT, 15);
    let mut d = provisional();
    assert_eq!(connectors_of(&d), vec![(2, true)]);
    assert_eq!(d.slots.switch_result, Some(ApplyResult::Provisional));
    assert_eq!(d.slots.modes_snapshot.edid_key, "two");
    {
        let b = d.ctx.output_revert.as_ref().unwrap();
        assert_eq!((b.connector_name.as_str(), b.mode, b.timer), ("one", info(1920), 77));
    }
    let (timer, stage, action) = d.finish(false).unwrap();
    assert_eq!((timer, &action), (77, &SwitchAction::Done));
    assert!(matches!(stage, SwitchStage::Finished));
    assert_eq!(d.slots.switch_result, Some(ApplyResult::Confirmed));
    assert!(d.ctx.output_revert.is_none());
    assert_eq!(connectors_of(&d), vec![(2, true)]);
    assert!(d.finish(true).is_none());
    assert!(d.watchdog().is_none());
}

#[test]
fn a_reverted_switch_rebuilds_the_previous_output() {
    let mut d = provisional();
    let (timer, stage, action) = d.finish(true).unwrap();
    assert_eq!((timer, &action), (77, &SwitchAction::Scan));
    let (stage, action) = stage.on_connectors(&mut d, &monitors());
    assert_eq!(action, SwitchAction::Build { handle: 1, requested: Some(info(1920)) });
    let (stage, action) = stage.on_built(&mut d, Ok(built(1, 1920)));
    assert_eq!(action, switch_survey(1, &[(1, 1920)]));
    let (stage, action) = stage.on_snapshots(&mut d, snapshot(&[("one", true)]), 9);
    assert_eq!(action, SwitchAction::Redraw);
    assert!(matches!(stage, SwitchStage::Finished));
    assert_eq!(connectors_of(&d), vec![(1, true)]);
    assert_eq!(d.ctx.outputs[0].current_drm_mode, drm(1920));
    assert_eq!(d.slots.switch_result, Some(ApplyResult::Reverted));
    assert!(d.ctx.output_revert.is_none());
}

#[test]
fn the_watchdog_reverts_even_if_the_previous_output_is_gone() {
    let mut d = provisional();
    let (stage, action) = d.watchdog().unwrap();
    assert_eq!(action, SwitchAction::Scan);
    let (stage, action) = stage.on_connectors(&mut d, &vec![connector(2, "two")]);
    assert_eq!(action, switch_survey(2, &[(2, 2560)]));
    assert_eq!(connectors_of(&d), vec![(2, true)]);
    let _ = stage.on_snapshots(&mut d, snapshot(&[("two", true)]), 9);
    assert_eq!(d.slots.switch_result, Some(ApplyResult::Reverted));
    assert!(d.watchdog().is_none());
}

#[test]
fn a_switch_to_an_absent_monitor_fails_and_changes_nothing() {
    let mut d = display(vec![pipe(1, 1920, true)]);
    let (_, stage, _) = d.apply("three".to_string(), None);
    let (stage, action) = stage.on_connectors(&mut d, &monitors());
    assert_eq!(action, SwitchAction::Done);
    assert!(matches!(stage, SwitchStage::Finished));
    assert_eq!(d.slots.switch_result, Some(ApplyResult::Failed));
    assert_eq!(connectors_of(&d), vec![(1, true)]);
}

#[test]
fn a_failed_switch_brings_the_previous_output_back() {
    let mut d = display(vec![pipe(1, 1920, true)]);
    let (_, stage, _) = d.apply("two".to_string(), None);
    let (stage, _) = stage.on_connectors(&mut d, &monitors());
    let (stage, action) = stage.on_built(&mut d, Err("no".to_string()));
    assert_eq!(action, SwitchAction::Scan);
    let (stage, action) = stage.on_connectors(&mut d, &monitors());
    assert_eq!(action, SwitchAction::Build { handle: 1, requested: Some(info(1920)) });
    let (stage, action) = stage.on_built(&mut d, Ok(built(1, 1920)));
    assert_eq!(action, SwitchAction::Done);
    assert!(matches!(stage, SwitchStage::Finished));
    assert_eq!(connectors_of(&d), vec![(1, true)]);
    assert_eq!(d.slots.switch_result, Some(ApplyResult::Failed));
    assert!(d.ctx.output_revert.is_none());
}

#[test]
fn a_failed_switch_without_a_previous_output_just_fails() {
    let mut d = display(vec![pipe(9, 1920, true)]);
    let (_, stage, _) = d.apply("two".to_string(), None);
    let (stage, _) = stage.on_connectors(&mut d, &monitors());
    let (_, action) = stage.on_built(&mut d, Err("no".to_string()));
    assert_eq!(action, SwitchAction::Done);
    assert_eq!(d.slots.switch_result, Some(ApplyResult::Failed));
}

#[test]
fn a_previous_output_that_cannot_be_brought_back_is_given_up() {
    let mut d = display(vec![pipe(1, 1920, true)]);
    let (_, stage, _) = d.apply("two".to_string(), None);
    let (stage, _) = stage.on_connectors(&mut d, &monitors());
    let (stage, _) = stage.on_built(&mut d, Err("no".to_string()));
    let (stage, _) = stage.on_connectors(&mut d, &monitors());
    let (_, action) = stage.on_built(&mut d, Err("no".to_string()));
    assert_eq!(action, SwitchAction::Abort);
    assert_eq!(d.slots.switch_result, None);
    assert!(!d.ctx.any_live());
}

#[test]
fn a_previous_output_that_is_gone_after_a_failed_switch_stays_dark() {
    let mut d = display(vec![pipe(1, 1920, true)]);
    let (_, stage, _) = d.apply("two".to_string(), None);
    let (stage, _) = stage.on_connectors(&mut d, &monitors());
    let (stage, _) = stage.on_built(&mut d, Err("no".to_string()));
    let (_, action) = stage.on_connectors(&mut d, &vec![connector(2, "two")]);
    assert_eq!(action, SwitchAction::Done);
    assert_eq!(d.slots.switch_result, Some(ApplyResult::Failed));
    assert!(!d.ctx.any_live());
}

#[test]
fn a_second_switch_is_taken_back_to_the_true_original() {
    let mut d = provisional();
    let (cancelled, stage, action) = d.apply("three".to_string(), None);
    assert_eq!(cancelled, Some(77));
    assert_eq!(action, SwitchAction::Scan);
    let three = vec![connector(1, "one"), connector(2, "two"), connector(3, "three")];
    let (stage, action) = stage.on_connectors(&mut d, &three);
    assert_eq!(action, SwitchAction::Build { handle: 1, requested: Some(info(1920)) });
    let (stage, action) = stage.on_built(&mut d, Ok(built(1, 1920)));
    assert_eq!(action, SwitchAction::Scan);
    let (stage, action) = stage.on_connectors(&mut d, &three);
    assert_eq!(action, SwitchAction::Build { handle: 3, requested: None });
    let (stage, _) = stage.on_built(&mut d, Ok(built(3, 800)));
    let (_, _) = stage.on_armed(&mut d, 78);
    let b = d.ctx.output_revert.as_ref().unwrap();
    assert_eq!((b.connector_name.as_str(), b.mode, b.timer), ("one", info(1920), 78));
}

#[test]
fn a_switch_from_an_unknown_connector_cannot_be_taken_back() {
    let mut d = display(vec![pipe(9, 1920, true)]);
    let (_, stage, _) = d.apply("two".to_string(), None);
    let (stage, _) = stage.on_connectors(&mut d, &monitors());
    let (stage, _) = stage.on_built(&mut d, Ok(built(2, 2560)));
    let (_, action) = stage.on_armed(&mut d, 1);
    assert_eq!(action, switch_survey(2, &[(2, 2560)]));
    assert!(d.ctx.output_revert.is_none());
}

#[test]
fn every_connected_monitor_is_lit() {
    let mut d = display(vec![pipe(1, 1920, true)]);
    let prefs = Preferences {
        profiles: vec![Profile {
            identity: Some("three".to_string()),
            mode: Some(ModeRequest::Advertised { width: 800, height: 1080, refresh_mhz: 60000 }),
        }],
        default_mode: None,
    };
    let (cancelled, stage) = d.reconcile();
    assert_eq!(cancelled, None);
    let mut scan = monitors();
    scan.push(Connector { handle: 4, connected: false, key: "four".to_string() });
    scan.push(connector(3, "three"));
    let (stage, action, dropped) = stage.on_connectors(&mut d, scan, &prefs);
    assert_eq!(action, extra(2, None, &[101]));
    assert!(dropped.is_empty());
    let (stage, action, placed) = stage.on_added(&mut d, 50, Ok(built(2, 1280)), &prefs);
    assert_eq!(placed, Ok(1920));
    assert_eq!(action, extra(3, Some(info(800)), &[101, 102]));
    let (stage, action, placed) = stage.on_added(&mut d, 51, Ok(built(3, 800)), &prefs);
    assert_eq!(placed, Ok(3200));
    assert_eq!(action, survey(1, &[(1, 1920), (2, 1280), (3, 800)]));
    assert_eq!(stage.on_snapshots(&mut d, snapshot(&[("one", true)]), 5), OutputChange::Changed);
    assert_eq!(connectors_of(&d), vec![(1, true), (2, true), (3, true)]);
    assert!(!d.slots.display_off);
    assert_eq!(d.slots.display_snapshot, 5);
    let (_, stage) = d.reconcile();
    let scan = vec![connector(1, "one"), connector(2, "two"), connector(3, "three")];
    let (_, action, dropped) = stage.on_connectors(&mut d, scan, &prefs);
    assert_eq!(action, survey(1, &[(1, 1920), (2, 1280), (3, 800)]));
    assert!(dropped.is_empty());
    assert_eq!(connectors_of(&d), vec![(1, true), (2, true), (3, true)]);
}

#[test]
fn vanished_secondaries_are_dropped_and_the_primary_stays() {
    let mut d = display(vec![pipe(1, 1920, true), pipe(2, 1280, true), pipe(3, 800, true)]);
    let (_, stage) = d.reconcile();
    let (stage, action, dropped) = stage.on_connectors(&mut d, vec![connector(1, "one"), connector(3, "three")], &no_prefs());
    assert_eq!(action, survey(1, &[(1, 1920), (3, 800)]));
    assert_eq!(dropped.iter().map(|p| p.output).collect::<Vec<u32>>(), vec![2]);
    assert_eq!(connectors_of(&d), vec![(1, true), (3, true)]);
    assert_eq!(stage.on_snapshots(&mut d, snapshot(&[]), 0), OutputChange::Changed);
}

#[test]
fn a_vanished_primary_fails_over_to_the_preferred_monitor() {
    let mut d = display(vec![pipe(1, 1920, true)]);
    let prefs = Preferences {
        profiles: vec![Profile { identity: Some("three".to_string()), mode: None }],
        default_mode: Some(ModeRequest::Advertised { width: 640, height: 1080, refresh_mhz: 60000 }),
    };
    let (_, stage) = d.reconcile();
    let (stage, action, _) = stage.on_connectors(&mut d, vec![connector(2, "two"), connector(3, "three")], &prefs);
    assert_eq!(action, ReconcileAction::BuildPrimary { handle: 3, requested: Some(info(640)) });
    assert_eq!(connectors_of(&d), vec![(1, false)]);
    let (stage, action) = stage.on_primary_built(&mut d, Ok(built(3, 640)), &prefs);
    assert_eq!(action, extra(2, Some(info(640)), &[103]));
    assert!(!d.slots.display_off);
    let (stage, action, placed) = stage.on_added(&mut d, 50, Err("no".to_string()), &prefs);
    assert_eq!(placed, Err("no".to_string()));
    assert_eq!(action, survey(3, &[(3, 640)]));
    assert_eq!(stage.on_snapshots(&mut d, snapshot(&[]), 0), OutputChange::Changed);
    assert_eq!(connectors_of(&d), vec![(3, true)]);
}

#[test]
fn without_a_monitor_the_display_goes_dark_and_comes_back() {
    let mut d = display(vec![pipe(1, 1920, true), pipe(2, 1280, true)]);
    let (_, stage) = d.reconcile();
    let (stage, action, dropped) = stage.on_connectors(&mut d, Vec::new(), &no_prefs());
    assert_eq!(action, survey(1, &[]));
    assert_eq!(dropped.len(), 1);
    assert_eq!(stage.on_snapshots(&mut d, snapshot(&[]), 0), OutputChange::WentDark);
    assert_eq!(connectors_of(&d), vec![(1, false)]);
    assert!(d.slots.display_off);
    let (_, stage) = d.reconcile();
    let (stage, action, _) = stage.on_connectors(&mut d, vec![connector(1, "one")], &no_prefs());
    assert_eq!(action, ReconcileAction::BuildPrimary { handle: 1, requested: None });
    let (stage, action) = stage.on_primary_built(&mut d, Ok(built(1, 1920)), &no_prefs());
    assert_eq!(action, survey(1, &[(1, 1920)]));
    assert_eq!(stage.on_snapshots(&mut d, snapshot(&[]), 0), OutputChange::Recovered);
    assert!(!d.slots.display_off);
    assert_eq!(connectors_of(&d), vec![(1, true)]);
}

#[test]
fn a_primary_that_cannot_be_driven_gives_way_to_an_additional_output() {
    let mut d = display(vec![pipe(1, 1920, false)]);
    let (_, stage) = d.reconcile();
    let (stage, _, _) = stage.on_connectors(&mut d, vec![connector(2, "two")], &no_prefs());
    let (stage, action) = stage.on_primary_built(&mut d, Err("no".to_string()), &no_prefs());
    assert!(d.slots.display_off);
    assert_eq!(action, extra(2, None, &[101]));
    let (stage, action, placed) = stage.on_added(&mut d, 50, Ok(built(2, 1280)), &no_prefs());
    assert_eq!(placed, Ok(1920));
    assert_eq!(action, survey(1, &[(2, 1280)]));
    assert!(!d.slots.display_off);
    assert_eq!(stage.on_snapshots(&mut d, snapshot(&[]), 0), OutputChange::Recovered);
    assert_eq!(connectors_of(&d), vec![(1, false), (2, true)]);
}

#[test]
fn failed_additions_leave_only_their_own_monitors_dark() {
    let mut d = display(vec![pipe(1, 1920, true)]);
    let (_, stage) = d.reconcile();
    let scan = vec![connector(2, "two"), connector(3, "three"), connector(4, "four")];
    let (stage, action, _) = stage.on_connectors(&mut d, scan, &no_prefs());
    assert_eq!(action, ReconcileAction::BuildPrimary { handle: 2, requested: None });
    let (stage, action) = stage.on_primary_built(&mut d, Err("no".to_string()), &no_prefs());
    assert_eq!(action, extra(2, None, &[101]));
    let (stage, action, _) = stage.on_added(&mut d, 50, Ok(built(2, 1280)), &no_prefs());
    assert_eq!(action, extra(3, None, &[101, 102]));
    let (stage, action, _) = stage.on_added(&mut d, 51, Err("no".to_string()), &no_prefs());
    assert_eq!(action, extra(4, None, &[101, 102]));
    let (stage, action, _) = stage.on_added(&mut d, 52, Ok(built(4, 800)), &no_prefs());
    assert_eq!(action, survey(1, &[(2, 1280), (4, 800)]));
    assert_eq!(stage.on_snapshots(&mut d, snapshot(&[]), 0), OutputChange::Changed);
    assert_eq!(connectors_of(&d), vec![(1, false), (2, true), (4, true)]);
    assert!(!d.slots.display_off);
}

#[test]
fn a_reconciliation_supersedes_a_pending_switch() {
    let mut d = provisional();
    let (cancelled, stage) = d.reconcile();
    assert_eq!(cancelled, Some(77));
    assert!(d.ctx.output_revert.is_none());
    assert!(matches!(stage, ReconcileStage::Scanning { was_dark: false }));
    assert_eq!(connectors_of(&d), vec![(2, true)]);
    assert!(d.watchdog().is_none());
}
