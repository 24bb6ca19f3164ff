//! What holds of an output switch from its request to its end.
use vstd::prelude::*;

use crate::display::{ApplyResult, Display};
use crate::output::{first_where, is_target, key_of, Connector, DrmMode, ModeInfo};
use crate::output_laws::{lemma_named, lemma_target};
use crate::pipe::Platform;
use crate::switch::{
    step_armed, step_built, step_published, step_scan, Next, NextModel, StageModel, SwitchAction,
    SwitchStage, SwitchState, SwitchWork,
};

verus! {

/// What holds between the decisions of a switch: no baseline is pending until the timer is
/// armed, the primary is dark while an output is built, and driven once the target is up.
pub open spec fn in_progress(stage: StageModel, s: SwitchState) -> bool {
    match stage {
        StageModel::Restoring { .. } | StageModel::Locating { .. } => s.baseline is None,
        StageModel::Rebuilding { .. }
        | StageModel::Switching { .. }
        | StageModel::Recalling { .. }
        | StageModel::Recovering => s.baseline is None && !s.lit,
        StageModel::Arming { .. } => s.baseline is None && s.lit,
        StageModel::Publishing { result } => match result {
            ApplyResult::Provisional => s.lit,
            ApplyResult::Reverted => s.baseline is None,
            _ => false,
        },
        StageModel::Finished => true,
    }
}

/// What holds at the end of a switch that was not given up: a result was told; a provisional
/// one means that an output is driven, any other that no switch is pending.
pub open spec fn over(s: SwitchState) -> bool {
    match s.result {
        Some(ApplyResult::Provisional) => s.lit,
        Some(ApplyResult::Failed) | Some(ApplyResult::Reverted) => s.baseline is None,
        _ => false,
    }
}

/// What a decision keeps: the rules between decisions; an output is built only while the
/// primary is dark; the end tells a result; and giving up means that nothing is driven.
pub open spec fn kept(r: (StageModel, SwitchState, SwitchWork)) -> bool {
    &&& in_progress(r.0, r.1)
    &&& r.2 is Build ==> !r.1.lit && r.0.awaits_build()
    &&& r.2 is Scan ==> r.0.awaits_scan()
    &&& r.2 is Arm ==> r.0 is Arming
    &&& r.2 is Survey ==> r.0 is Publishing
    &&& r.2 is Done || r.2 is Redraw ==> r.0 is Finished && over(r.1)
    &&& r.2 is Abort ==> r.0 is Finished && !r.1.lit
}

/// Every decision of a switch keeps the rules, whatever the work before it came to, and names
/// work that the stage it leads to waits for.
pub proof fn lemma_switch_steps(
    stage: StageModel,
    s: SwitchState,
    connectors: Seq<Connector>,
    built: Option<(u32, DrmMode)>,
)
    requires
        in_progress(stage, s),
    ensures
        stage.awaits_scan() ==> kept(step_scan(stage, s, connectors)),
        stage.awaits_build() ==> kept(step_built(stage, s, built)),
        stage is Arming ==> kept(step_armed(stage, s)),
        stage is Publishing ==> kept(step_published(stage, s)),
{
}

/// How many decisions a switch may still be from its end, at most.
pub open spec fn steps_left(stage: StageModel) -> nat {
    match stage {
        StageModel::Restoring { next, .. } => if next is Apply {
            6
        } else {
            3
        },
        StageModel::Rebuilding { next } => if next is Apply {
            5
        } else {
            2
        },
        StageModel::Locating { .. } => 4,
        StageModel::Switching { .. } => 3,
        StageModel::Recalling { .. } => 2,
        StageModel::Recovering => 1,
        StageModel::Arming { .. } => 2,
        StageModel::Publishing { .. } => 1,
        StageModel::Finished => 0,
    }
}

/// A switch comes to its end: whatever the work comes to, every decision brings it nearer.
pub proof fn lemma_switch_ends(
    stage: StageModel,
    s: SwitchState,
    connectors: Seq<Connector>,
    built: Option<(u32, DrmMode)>,
)
    ensures
        steps_left(stage) == 0 <==> stage is Finished,
        stage.awaits_scan() ==> steps_left(step_scan(stage, s, connectors).0) < steps_left(stage),
        stage.awaits_build() ==> steps_left(step_built(stage, s, built).0) < steps_left(stage),
        stage is Arming ==> steps_left(step_armed(stage, s).0) < steps_left(stage),
        stage is Publishing ==> steps_left(step_published(stage, s).0) < steps_left(stage),
{
}

/// A second switch, asked while one is pending, is taken back to where the first is: the
/// baseline is rebuilt first, and if the monitors are still where they were, it is the baseline
/// of the second switch too.
pub proof fn lemma_reapply_keeps_baseline(
    s: SwitchState,
    name: Seq<char>,
    mode: ModeInfo,
    edid_key: Seq<char>,
    requested: Option<ModeInfo>,
    first_scan: Seq<Connector>,
    rebuilt: DrmMode,
    second_scan: Seq<Connector>,
    target: (u32, DrmMode),
)
    requires
        s.baseline is None,
        first_where(first_scan, is_target(name)) is Some,
        rebuilt.info() == mode,
        first_where(second_scan, is_target(edid_key)) is Some,
        key_of(
            second_scan,
            first_scan[first_where(first_scan, is_target(name)).unwrap()].handle,
        ) == Some(name),
    ensures
        ({
            let next = NextModel::Apply { edid_key, requested };
            let handle = first_scan[first_where(first_scan, is_target(name)).unwrap()].handle;
            let a = step_scan(StageModel::Restoring { name, mode, next }, s, first_scan);
            let b = step_built(a.0, a.1, Some((handle, rebuilt)));
            let c = step_scan(b.0, b.1, second_scan);
            let d = step_built(c.0, c.1, Some(target));
            let e = step_armed(d.0, d.1);
            &&& a.2 == SwitchWork::Build { handle, requested: Some(mode) }
            &&& c.2 is Build
            &&& e.1.baseline == Some((name, mode))
            &&& e.1.connector == target.0
        }),
{
}

/// A switch whose target cannot be driven brings the previous output back, if it is still
/// connected and can be: it is driven again, at the mode it had, and the switch is told failed.
pub proof fn lemma_failed_switch_recovers(
    s: SwitchState,
    edid_key: Seq<char>,
    requested: Option<ModeInfo>,
    first_scan: Seq<Connector>,
    name: Seq<char>,
    second_scan: Seq<Connector>,
    rebuilt: DrmMode,
)
    requires
        s.baseline is None,
        first_where(first_scan, is_target(edid_key)) is Some,
        key_of(first_scan, s.connector) == Some(name),
        first_where(second_scan, is_target(name)) is Some,
    ensures
        ({
            let handle = second_scan[first_where(second_scan, is_target(name)).unwrap()].handle;
            let a = step_scan(StageModel::Locating { edid_key, requested }, s, first_scan);
            let b = step_built(a.0, a.1, None);
            let c = step_scan(b.0, b.1, second_scan);
            let d = step_built(c.0, c.1, Some((handle, rebuilt)));
            &&& c.2 == SwitchWork::Build { handle, requested: Some(s.drm_mode.info()) }
            &&& d.0 is Finished
            &&& d.1.lit && d.1.connector == handle && d.1.baseline is None
            &&& d.1.result == Some(ApplyResult::Failed)
        }),
{
}

/// Taking a provisional switch back undoes it: what is built anew is the connector that was
/// driven before it, at the mode that it had.
pub proof fn lemma_revert_undoes_switch(
    s: SwitchState,
    edid_key: Seq<char>,
    requested: Option<ModeInfo>,
    first_scan: Seq<Connector>,
    target: (u32, DrmMode),
    name: Seq<char>,
    second_scan: Seq<Connector>,
    rebuilt: (u32, DrmMode),
)
    requires
        s.baseline is None,
        first_where(first_scan, is_target(edid_key)) is Some,
        key_of(first_scan, s.connector) == Some(name),
        first_where(second_scan, is_target(name)) is Some,
    ensures
        ({
            let a = step_scan(StageModel::Locating { edid_key, requested }, s, first_scan);
            let b = step_built(a.0, a.1, Some(target));
            let c = step_armed(b.0, b.1);
            let d = step_published(c.0, c.1);
            let taken = SwitchState { baseline: None, ..d.1 };
            let handle = second_scan[first_where(second_scan, is_target(name)).unwrap()].handle;
            let e = step_scan(
                StageModel::Restoring {
                    name: d.1.baseline.unwrap().0,
                    mode: d.1.baseline.unwrap().1,
                    next: NextModel::Settle,
                },
                taken,
                second_scan,
            );
            let f = step_built(e.0, e.1, Some(rebuilt));
            let g = step_published(f.0, f.1);
            &&& d.1.lit && d.1.connector == target.0
            &&& d.1.result == Some(ApplyResult::Provisional)
            &&& d.1.baseline == Some((name, s.drm_mode.info()))
            &&& e.2 == SwitchWork::Build { handle, requested: Some(s.drm_mode.info()) }
            &&& g.1.lit && g.1.connector == rebuilt.0 && g.1.drm_mode == rebuilt.1
            &&& g.1.result == Some(ApplyResult::Reverted) && g.1.baseline is None
        }),
{
}

/// What a switch reads and writes of the display, and what it leaves as it is.
pub proof fn lemma_switch_touches<P: Platform>(a: &Display<P>, b: &Display<P>)
    ensures
        ({
            let s = a.switch_state();
            let p = a.ctx.outputs[0];
            &&& s.lit <==> p.drm_output is Some
            &&& s.connector == p.connector
            &&& s.drm_mode == p.current_drm_mode
            &&& s.result == a.slots.switch_result
            &&& match a.ctx.output_revert {
                Some(baseline) => s.baseline == Some((baseline.connector_name@, baseline.mode)),
                None => s.baseline is None,
            }
        }),
        a.slots_same_but_result(b) ==> {
            &&& a.slots.display_off == b.slots.display_off
            &&& a.slots.display_snapshot == b.slots.display_snapshot
            &&& a.slots.modes_snapshot == b.slots.modes_snapshot
            &&& a.slots.outputs_snapshot == b.slots.outputs_snapshot
            &&& a.slots.switch_request == b.slots.switch_request
        },
{
}

/// A stage and the work that follows are seen as they are.
pub proof fn lemma_switch_seen(stage: SwitchStage, action: SwitchAction, next: Next)
    ensures
        match next {
            Next::Apply { edid_key, requested } => next@ == (NextModel::Apply {
                edid_key: edid_key@,
                requested,
            }),
            Next::Settle => next@ == NextModel::Settle,
        },
        match stage {
            SwitchStage::Restoring { name, mode, next } => stage@ == (StageModel::Restoring {
                name: name@,
                mode,
                next: next@,
            }),
            SwitchStage::Rebuilding { next } => stage@ == (StageModel::Rebuilding { next: next@ }),
            SwitchStage::Locating { edid_key, requested } => stage@ == (StageModel::Locating {
                edid_key: edid_key@,
                requested,
            }),
            SwitchStage::Switching { previous, mode } => stage@ == (StageModel::Switching {
                previous: match previous {
                    Some(p) => Some(p@),
                    None => None,
                },
                mode,
            }),
            SwitchStage::Recalling { name, mode } => stage@ == (StageModel::Recalling {
                name: name@,
                mode,
            }),
            SwitchStage::Recovering => stage@ == StageModel::Recovering,
            SwitchStage::Arming { previous, mode } => stage@ == (StageModel::Arming {
                previous: match previous {
                    Some(p) => Some(p@),
                    None => None,
                },
                mode,
            }),
            SwitchStage::Publishing { result } => stage@ == (StageModel::Publishing { result }),
            SwitchStage::Finished => stage@ == StageModel::Finished,
        },
        match action {
            SwitchAction::Build { handle, requested } => action@ == (SwitchWork::Build {
                handle,
                requested,
            }),
            SwitchAction::Scan => action@ is Scan,
            SwitchAction::Arm => action@ is Arm,
            SwitchAction::Survey { .. } => action@ is Survey,
            SwitchAction::Redraw => action@ is Redraw,
            SwitchAction::Done => action@ is Done,
            SwitchAction::Abort => action@ is Abort,
        },
        stage@.awaits_scan() <==> stage is Restoring || stage is Locating || stage is Recalling,
        stage@.awaits_build() <==> stage is Rebuilding || stage is Switching || stage is Recovering,
{
}

/// A scan leads to an output exactly if the monitor that is sought is connected, on the first
/// connector that it is at, in the mode that is remembered or asked for; then the primary is dark.
/// Else a switch is told failed, and a restored baseline is passed over.
pub proof fn lemma_switch_scan(stage: StageModel, s: SwitchState, connectors: Seq<Connector>)
    requires
        stage.awaits_scan(),
    ensures
        ({
            let r = step_scan(stage, s, connectors);
            let (sought, mode) = match stage {
                StageModel::Restoring { name, mode, .. } => (name, Some(mode)),
                StageModel::Locating { edid_key, requested } => (edid_key, requested),
                StageModel::Recalling { name, mode } => (name, Some(mode)),
                _ => (Seq::empty(), None),
            };
            &&& r.2 is Build <==> exists|k: int|
                0 <= k < connectors.len() && (#[trigger] connectors[k]).connected
                    && connectors[k].key@ == sought
            &&& r.2 matches SwitchWork::Build { handle, requested } ==> {
                &&& requested == mode
                &&& !r.1.lit
                &&& exists|k: int|
                    0 <= k < connectors.len() && (#[trigger] connectors[k]).connected
                        && connectors[k].key@ == sought && connectors[k].handle == handle && forall|
                        j: int,
                    |
                        0 <= j < k ==> !(#[trigger] connectors[j]).connected || connectors[j].key@
                            != sought
                &&& r.1.result == s.result
            }
            &&& r.2 !is Build ==> r.1.lit == s.lit
            &&& r.2 !is Build && (stage is Locating || stage is Recalling) ==> r.1.result == Some(
                ApplyResult::Failed,
            ) && r.0 is Finished && r.2 is Done
            &&& r.2 !is Build && stage is Restoring ==> r.1 == s
            &&& r.1.connector == s.connector
            &&& r.1.drm_mode == s.drm_mode
            &&& r.1.baseline == s.baseline
            &&& r.0 matches StageModel::Switching { previous, mode: m } ==> {
                &&& stage is Locating
                &&& m.width == s.drm_mode.width
                &&& m.height == s.drm_mode.height
                &&& s.drm_mode.vrefresh * 1000 <= u32::MAX ==> m.refresh_mhz == 1000
                    * s.drm_mode.vrefresh
                &&& match previous {
                    Some(name) => exists|k: int|
                        0 <= k < connectors.len() && (#[trigger] connectors[k]).handle
                            == s.connector && connectors[k].key@ == name && forall|j: int|
                            0 <= j < k ==> (#[trigger] connectors[j]).handle != s.connector,
                    None => forall|j: int|
                        0 <= j < connectors.len() ==> (#[trigger] connectors[j]).handle
                            != s.connector,
                }
            }
        }),
{
    match stage {
        StageModel::Restoring { name, .. } => lemma_target(connectors, name),
        StageModel::Locating { edid_key, .. } => {
            lemma_target(connectors, edid_key);
            lemma_named(connectors, s.connector);
        },
        StageModel::Recalling { name, .. } => lemma_target(connectors, name),
        _ => {},
    }
}

/// What a build comes to: where it worked, the primary drives it; a target goes on to be armed, a
/// restored baseline to what was asked next, and a previous output ends the failed switch. Where
/// it did not, the primary is dark; a target gives way to the previous output, if one is known.
pub proof fn lemma_switch_built(
    stage: StageModel,
    s: SwitchState,
    built: Option<(u32, DrmMode)>,
)
    requires
        stage.awaits_build(),
    ensures
        ({
            let r = step_built(stage, s, built);
            &&& r.1.lit == built is Some
            &&& built matches Some((connector, mode)) ==> r.1.connector == connector && r.1.drm_mode
                == mode
            &&& built is None ==> r.1.connector == s.connector && r.1.drm_mode == s.drm_mode
            &&& r.1.baseline == s.baseline
            &&& match stage {
                StageModel::Rebuilding { next } => r.1.result == s.result && match next {
                    NextModel::Apply { edid_key, requested } => r.2 is Scan && r.0 == (
                    StageModel::Locating { edid_key, requested }),
                    NextModel::Settle => r.2 is Survey && r.0 == (StageModel::Publishing {
                        result: ApplyResult::Reverted,
                    }),
                },
                StageModel::Switching { previous, mode } => if built is Some {
                    r.2 is Arm && r.0 == (StageModel::Arming { previous, mode }) && r.1.result
                        == s.result
                } else {
                    match previous {
                        Some(name) => r.2 is Scan && r.0 == (StageModel::Recalling { name, mode })
                            && r.1.result == s.result,
                        None => r.2 is Done && r.0 is Finished && r.1.result == Some(
                            ApplyResult::Failed,
                        ),
                    }
                },
                _ => r.0 is Finished && if built is Some {
                    r.2 is Done && r.1.result == Some(ApplyResult::Failed)
                } else {
                    r.2 is Abort && r.1.result == s.result
                },
            }
        }),
{
}

} // verus!
