//! Live ACTIVE-OUTPUT switch with a user-confirmed fault gate.
//!
//! Only one pipe is switched: the current output is torn down first, then the target is brought
//! up in its place. A revert REBUILDS the baseline connector. The work between the decisions (a
//! connector scan, a modeset, a timer) is the caller's: each decision takes what the work came
//! to and names the work that follows.
use vstd::prelude::*;

use crate::display::{ApplyResult, Display, DisplaySlots, OutputsSnapshot};
use crate::output::{
    current_connector_name, find_target, first_where, is_target, key_of, mode_info, Connector,
    DrmMode, ModeInfo,
};
use crate::pipe::{lit_list, Built, OutputPipe, OutputSwitchBaseline, Platform, RenderContext};

verus! {

/// How long a provisionally switched output survives without an explicit Keep before it is
/// taken back, in seconds.
pub const CONFIRM_TIMEOUT: u64 = 15;

/// What follows once the baseline was rebuilt (or could not be).
#[derive(Debug)]
pub enum Next {
    /// The switch that was asked for.
    Apply { edid_key: String, requested: Option<ModeInfo> },
    /// Nothing: the switch is taken back.
    Settle,
}

/// How far a switch has come: what it waits for.
#[derive(Debug)]
pub enum SwitchStage {
    /// For a scan, to find the baseline connector.
    Restoring { name: String, mode: ModeInfo, next: Next },
    /// For the baseline output.
    Rebuilding { next: Next },
    /// For a scan, to find the current and the target connector.
    Locating { edid_key: String, requested: Option<ModeInfo> },
    /// For the target output.
    Switching { previous: Option<String>, mode: ModeInfo },
    /// For a scan, to find the previous connector after the target failed.
    Recalling { name: String, mode: ModeInfo },
    /// For the previous output.
    Recovering,
    /// For the timer that takes the switch back.
    Arming { previous: Option<String>, mode: ModeInfo },
    /// For the snapshots of what is now driven.
    Publishing { result: ApplyResult },
    /// For nothing.
    Finished,
}

/// The work that follows a decision.
#[derive(PartialEq, Debug)]
pub enum SwitchAction {
    /// Scan the connectors.
    Scan,
    /// Build an output on the connector with this handle; the primary is dark, and no controller
    /// is to be left alone.
    Build { handle: u32, requested: Option<ModeInfo> },
    /// Arm the timer that takes the switch back.
    Arm,
    /// Take the snapshots of what is driven: `active` is the primary's connector, `lit` the
    /// current mode of every driven pipe.
    Survey { active: u32, lit: Vec<(u32, ModeInfo)> },
    /// Draw anew: the switch is over.
    Redraw,
    /// Nothing: the switch is over.
    Done,
    /// Give up: no output could be brought back.
    Abort,
}

/// The kind of work of a [`SwitchAction`].
pub enum SwitchWork {
    Scan,
    Build { handle: u32, requested: Option<ModeInfo> },
    Arm,
    Survey,
    Redraw,
    Done,
    Abort,
}

impl SwitchAction {
    pub open spec fn view(&self) -> SwitchWork {
        match self {
            SwitchAction::Scan => SwitchWork::Scan,
            SwitchAction::Build { handle, requested } => SwitchWork::Build {
                handle: *handle,
                requested: *requested,
            },
            SwitchAction::Arm => SwitchWork::Arm,
            SwitchAction::Survey { .. } => SwitchWork::Survey,
            SwitchAction::Redraw => SwitchWork::Redraw,
            SwitchAction::Done => SwitchWork::Done,
            SwitchAction::Abort => SwitchWork::Abort,
        }
    }

    /// Whether snapshots, if they are asked for, are asked for what these pipes drive.
    pub open spec fn surveys<P: Platform>(&self, ctx: RenderContext<P>) -> bool {
        self matches SwitchAction::Survey { active, lit } ==> active == ctx.outputs[0].connector
            && lit@ == lit_list(ctx.outputs@)
    }
}

/// [`Next`] with its text as a sequence.
#[verifier::ext_equal]
pub enum NextModel {
    Apply { edid_key: Seq<char>, requested: Option<ModeInfo> },
    Settle,
}

/// [`SwitchStage`] with its texts as sequences.
#[verifier::ext_equal]
pub enum StageModel {
    Restoring { name: Seq<char>, mode: ModeInfo, next: NextModel },
    Rebuilding { next: NextModel },
    Locating { edid_key: Seq<char>, requested: Option<ModeInfo> },
    Switching { previous: Option<Seq<char>>, mode: ModeInfo },
    Recalling { name: Seq<char>, mode: ModeInfo },
    Recovering,
    Arming { previous: Option<Seq<char>>, mode: ModeInfo },
    Publishing { result: ApplyResult },
    Finished,
}

/// What a switch reads and writes of the display.
#[verifier::ext_equal]
pub struct SwitchState {
    /// Whether the primary is driven.
    pub lit: bool,
    /// The connector that the primary drives, or drove last.
    pub connector: u32,
    pub drm_mode: DrmMode,
    /// The connector and mode that the pending switch is taken back to.
    pub baseline: Option<(Seq<char>, ModeInfo)>,
    pub result: Option<ApplyResult>,
}

impl Next {
    pub open spec fn view(&self) -> NextModel {
        match self {
            Next::Apply { edid_key, requested } => NextModel::Apply {
                edid_key: edid_key@,
                requested: *requested,
            },
            Next::Settle => NextModel::Settle,
        }
    }
}

/// The text of an optional string.
pub open spec fn text(s: Option<String>) -> Option<Seq<char>> {
    match s {
        Some(t) => Some(t@),
        None => None,
    }
}

impl SwitchStage {
    pub open spec fn view(&self) -> StageModel {
        match self {
            SwitchStage::Restoring { name, mode, next } => StageModel::Restoring {
                name: name@,
                mode: *mode,
                next: next@,
            },
            SwitchStage::Rebuilding { next } => StageModel::Rebuilding { next: next@ },
            SwitchStage::Locating { edid_key, requested } => StageModel::Locating {
                edid_key: edid_key@,
                requested: *requested,
            },
            SwitchStage::Switching { previous, mode } => StageModel::Switching {
                previous: text(*previous),
                mode: *mode,
            },
            SwitchStage::Recalling { name, mode } => StageModel::Recalling {
                name: name@,
                mode: *mode,
            },
            SwitchStage::Recovering => StageModel::Recovering,
            SwitchStage::Arming { previous, mode } => StageModel::Arming {
                previous: text(*previous),
                mode: *mode,
            },
            SwitchStage::Publishing { result } => StageModel::Publishing { result: *result },
            SwitchStage::Finished => StageModel::Finished,
        }
    }
}

impl StageModel {
    /// Whether the stage waits for a scan.
    pub open spec fn awaits_scan(self) -> bool {
        self is Restoring || self is Locating || self is Recalling
    }

    /// Whether the stage waits for an output.
    pub open spec fn awaits_build(self) -> bool {
        self is Rebuilding || self is Switching || self is Recovering
    }
}

impl SwitchState {
    /// The state with the primary dark.
    pub open spec fn dark(self) -> SwitchState {
        SwitchState { lit: false, ..self }
    }

    /// The state with the primary as the build left it.
    pub open spec fn built(self, built: Option<(u32, DrmMode)>) -> SwitchState {
        match built {
            Some((connector, drm_mode)) => SwitchState { lit: true, connector, drm_mode, ..self },
            None => self.dark(),
        }
    }

    /// The state with this result told.
    pub open spec fn told(self, result: ApplyResult) -> SwitchState {
        SwitchState { result: Some(result), ..self }
    }
}

/// The stage that follows a rebuilt baseline, with its work.
pub open spec fn after_restore(next: NextModel) -> (StageModel, SwitchWork) {
    match next {
        NextModel::Apply { edid_key, requested } => (
            StageModel::Locating { edid_key, requested },
            SwitchWork::Scan,
        ),
        NextModel::Settle => (
            StageModel::Publishing { result: ApplyResult::Reverted },
            SwitchWork::Survey,
        ),
    }
}

/// What a scan comes to.
pub open spec fn step_scan(stage: StageModel, s: SwitchState, connectors: Seq<Connector>) -> (
    StageModel,
    SwitchState,
    SwitchWork,
) {
    match stage {
        StageModel::Restoring { name, mode, next } => match first_where(
            connectors,
            is_target(name),
        ) {
            Some(k) => (
                StageModel::Rebuilding { next },
                s.dark(),
                SwitchWork::Build { handle: connectors[k].handle, requested: Some(mode) },
            ),
            None => (after_restore(next).0, s, after_restore(next).1),
        },
        StageModel::Locating { edid_key, requested } => match first_where(
            connectors,
            is_target(edid_key),
        ) {
            Some(k) => (
                StageModel::Switching {
                    previous: key_of(connectors, s.connector),
                    mode: s.drm_mode.info(),
                },
                s.dark(),
                SwitchWork::Build { handle: connectors[k].handle, requested },
            ),
            None => (StageModel::Finished, s.told(ApplyResult::Failed), SwitchWork::Done),
        },
        StageModel::Recalling { name, mode } => match first_where(connectors, is_target(name)) {
            Some(k) => (
                StageModel::Recovering,
                s.dark(),
                SwitchWork::Build { handle: connectors[k].handle, requested: Some(mode) },
            ),
            None => (StageModel::Finished, s.told(ApplyResult::Failed), SwitchWork::Done),
        },
        _ => (stage, s, SwitchWork::Done),
    }
}

/// What a build comes to.
pub open spec fn step_built(
    stage: StageModel,
    s: SwitchState,
    built: Option<(u32, DrmMode)>,
) -> (StageModel, SwitchState, SwitchWork) {
    let now = s.built(built);
    match stage {
        StageModel::Rebuilding { next } => (after_restore(next).0, now, after_restore(next).1),
        StageModel::Switching { previous, mode } => if built is Some {
            (StageModel::Arming { previous, mode }, now, SwitchWork::Arm)
        } else {
            match previous {
                Some(name) => (StageModel::Recalling { name, mode }, now, SwitchWork::Scan),
                None => (StageModel::Finished, now.told(ApplyResult::Failed), SwitchWork::Done),
            }
        },
        StageModel::Recovering => if built is Some {
            (StageModel::Finished, now.told(ApplyResult::Failed), SwitchWork::Done)
        } else {
            (StageModel::Finished, now, SwitchWork::Abort)
        },
        _ => (stage, s, SwitchWork::Done),
    }
}

/// What an armed timer comes to.
pub open spec fn step_armed(stage: StageModel, s: SwitchState) -> (
    StageModel,
    SwitchState,
    SwitchWork,
) {
    match stage {
        StageModel::Arming { previous, mode } => (
            StageModel::Publishing { result: ApplyResult::Provisional },
            SwitchState {
                baseline: match previous {
                    Some(name) => Some((name, mode)),
                    None => None,
                },
                ..s
            },
            SwitchWork::Survey,
        ),
        _ => (stage, s, SwitchWork::Done),
    }
}

/// What taken snapshots come to.
pub open spec fn step_published(stage: StageModel, s: SwitchState) -> (
    StageModel,
    SwitchState,
    SwitchWork,
) {
    match stage {
        StageModel::Publishing { result } => (
            StageModel::Finished,
            s.told(result),
            SwitchWork::Redraw,
        ),
        _ => (stage, s, SwitchWork::Done),
    }
}

impl<P: Platform> Display<P> {
    /// What a switch reads and writes of the display.
    pub open spec fn switch_state(&self) -> SwitchState {
        SwitchState {
            lit: self.ctx.outputs[0].lit(),
            connector: self.ctx.outputs[0].connector,
            drm_mode: self.ctx.outputs[0].current_drm_mode,
            baseline: match self.ctx.output_revert {
                Some(b) => Some((b.connector_name@, b.mode)),
                None => None,
            },
            result: self.slots.switch_result,
        }
    }

    /// Whether nothing but the told result differs in the slots.
    pub open spec fn slots_same_but_result(&self, other: &Self) -> bool {
        self.slots == (DisplaySlots { switch_result: self.slots.switch_result, ..other.slots })
    }

    /// Begins a switch to the monitor `edid_key`. A pending switch is taken back first, so that
    /// the baseline of this one is the true original; its timer, which is to be cancelled,
    /// comes with the stage.
    pub fn apply(&mut self, edid_key: String, requested: Option<ModeInfo>) -> (r: (
        Option<P::Timer>,
        SwitchStage,
        SwitchAction,
    ))
        ensures
            r.0 == match old(self).ctx.output_revert {
                Some(b) => Some(b.timer),
                None => None,
            },
            r.1@ == match old(self).switch_state().baseline {
                Some((name, mode)) => StageModel::Restoring {
                    name,
                    mode,
                    next: NextModel::Apply { edid_key: edid_key@, requested },
                },
                None => StageModel::Locating { edid_key: edid_key@, requested },
            },
            match old(self).ctx.output_revert {
                Some(b) => r.1 matches SwitchStage::Restoring {
                    name,
                    mode,
                    next: Next::Apply { edid_key: k, requested: q },
                } && name@ == b.connector_name@ && mode == b.mode && k@ == edid_key@ && q
                    == requested,
                None => r.1 matches SwitchStage::Locating { edid_key: k, requested: q } && k@
                    == edid_key@ && q == requested,
            },
            r.2 is Scan,
            final(self).ctx.output_revert is None,
            r.2@ == SwitchWork::Scan,
            final(self).switch_state() == (SwitchState {
                baseline: None,
                ..old(self).switch_state()
            }),
            final(self).ctx.outputs == old(self).ctx.outputs,
            final(self).ctx.vulkan_mode == old(self).ctx.vulkan_mode,
            final(self).slots == old(self).slots,
    {
        match self.ctx.output_revert.take() {
            Some(b) => (
                Some(b.timer),
                SwitchStage::Restoring {
                    name: b.connector_name,
                    mode: b.mode,
                    next: Next::Apply { edid_key, requested },
                },
                SwitchAction::Scan,
            ),
            None => (None, SwitchStage::Locating { edid_key, requested }, SwitchAction::Scan),
        }
    }

    /// Ends the pending switch, if any: keeps the new output (`revert` = false; the previous
    /// one is already gone) or rebuilds the previous one (`revert` = true). Its timer, which is
    /// to be cancelled, comes with the stage.
    pub fn finish(&mut self, revert: bool) -> (r: Option<(P::Timer, SwitchStage, SwitchAction)>)
        ensures
            match old(self).ctx.output_revert {
                Some(b) => r matches Some((timer, stage, action)) && timer == b.timer
                    && if revert {
                    stage@ == (StageModel::Restoring {
                        name: b.connector_name@,
                        mode: b.mode,
                        next: NextModel::Settle,
                    }) && action@ == SwitchWork::Scan && final(self).slots == old(self).slots
                } else {
                    stage@ == StageModel::Finished && action@ == SwitchWork::Done
                        && final(self).slots == (DisplaySlots {
                        switch_result: Some(ApplyResult::Confirmed),
                        ..old(self).slots
                    })
                },
                None => r is None && final(self).slots == old(self).slots,
            },
            r is Some <==> old(self).ctx.output_revert is Some,
            r matches Some((_, stage, action)) ==> match (old(self).ctx.output_revert, revert) {
                (Some(b), true) => action is Scan && (stage matches SwitchStage::Restoring {
                    name,
                    mode,
                    next: Next::Settle,
                } && name@ == b.connector_name@ && mode == b.mode),
                _ => action is Done && stage is Finished && final(self).slots.switch_result == Some(
                    ApplyResult::Confirmed,
                ),
            },
            final(self).ctx.output_revert is None,
            final(self).ctx.outputs == old(self).ctx.outputs,
            final(self).ctx.vulkan_mode == old(self).ctx.vulkan_mode,
    {
        match self.ctx.output_revert.take() {
            Some(b) => if revert {
                Some(
                    (
                        b.timer,
                        SwitchStage::Restoring {
                            name: b.connector_name,
                            mode: b.mode,
                            next: Next::Settle,
                        },
                        SwitchAction::Scan,
                    ),
                )
            } else {
                self.slots.set_result(ApplyResult::Confirmed);
                Some((b.timer, SwitchStage::Finished, SwitchAction::Done))
            },
            None => None,
        }
    }

    /// The timer fired: rebuilds whatever baseline is pending.
    pub fn watchdog(&mut self) -> (r: Option<(SwitchStage, SwitchAction)>)
        ensures
            match old(self).ctx.output_revert {
                Some(b) => r matches Some((stage, action)) && stage@ == (StageModel::Restoring {
                    name: b.connector_name@,
                    mode: b.mode,
                    next: NextModel::Settle,
                }) && action@ == SwitchWork::Scan,
                None => r is None,
            },
            r is Some <==> old(self).ctx.output_revert is Some,
            r matches Some((stage, action)) ==> action is Scan && (
            stage matches SwitchStage::Restoring { name, mode, next: Next::Settle } && (
            old(self).ctx.output_revert matches Some(b) && name@ == b.connector_name@ && mode
                == b.mode)),
            final(self).ctx.output_revert is None,
            final(self).ctx.outputs == old(self).ctx.outputs,
            final(self).ctx.vulkan_mode == old(self).ctx.vulkan_mode,
            final(self).slots == old(self).slots,
    {
        match self.ctx.output_revert.take() {
            Some(b) => Some(
                (
                    SwitchStage::Restoring {
                        name: b.connector_name,
                        mode: b.mode,
                        next: Next::Settle,
                    },
                    SwitchAction::Scan,
                ),
            ),
            None => None,
        }
    }
}

/// The snapshots to take of what these pipes drive.
fn survey<P: Platform>(ctx: &RenderContext<P>) -> (r: SwitchAction)
    requires
        ctx.wf(),
    ensures
        r@ == SwitchWork::Survey,
        r.surveys(*ctx),
{
    SwitchAction::Survey { active: ctx.outputs[0].connector, lit: ctx.lit_modes() }
}

/// The stage that follows a rebuilt baseline, with its work.
fn restored<P: Platform>(next: Next, ctx: &RenderContext<P>) -> (r: (SwitchStage, SwitchAction))
    requires
        ctx.wf(),
    ensures
        (r.0@, r.1@) == after_restore(next@),
        match next {
            Next::Apply { edid_key, requested } => {
                &&& r.1 is Scan
                &&& r.0 matches SwitchStage::Locating { edid_key: k, requested: q } && k@ == edid_key@
                    && q == requested
            },
            Next::Settle => {
                &&& r.1 is Survey
                &&& r.0 matches SwitchStage::Publishing { result } && result
                    == ApplyResult::Reverted
            },
        },
        r.1.surveys(*ctx),
{
    match next {
        Next::Apply { edid_key, requested } => (
            SwitchStage::Locating { edid_key, requested },
            SwitchAction::Scan,
        ),
        Next::Settle => (
            SwitchStage::Publishing { result: ApplyResult::Reverted },
            survey(ctx),
        ),
    }
}

impl SwitchStage {
    /// Goes on with what a scan found.
    pub fn on_connectors<P: Platform>(
        self,
        d: &mut Display<P>,
        connectors: &Vec<Connector>,
    ) -> (r: (SwitchStage, SwitchAction))
        requires
            old(d).wf(),
            self@.awaits_scan(),
        ensures
            final(d).wf(),
            (r.0@, final(d).switch_state(), r.1@) == step_scan(
                self@,
                old(d).switch_state(),
                connectors@,
            ),
            r.1.surveys(final(d).ctx),
            final(d).ctx.outputs@ == if r.1@ is Build {
                old(d).ctx.outputs@.update(0, old(d).ctx.outputs[0].darkened())
            } else {
                old(d).ctx.outputs@
            },
            final(d).ctx.same_but_outputs(&old(d).ctx),
            final(d).slots_same_but_result(old(d)),
            match self {
                SwitchStage::Restoring { name, mode, next } => {
                    &&& r.1 is Build <==> exists|k: int|
                        0 <= k < connectors.len() && (#[trigger] connectors[k]).connected
                            && connectors[k].key@ == name@
                    &&& r.1 matches SwitchAction::Build { handle, requested: asked } ==> asked
                        == Some(mode) && exists|k: int|
                        0 <= k < connectors.len() && (#[trigger] connectors[k]).connected
                            && connectors[k].key@ == name@ && connectors[k].handle == handle
                            && forall|j: int|
                            0 <= j < k ==> !(#[trigger] connectors[j]).connected
                                || connectors[j].key@ != name@
                    &&& r.1 is Build ==> (r.0 matches SwitchStage::Rebuilding { next: n } && n == next)
                    &&& r.1 !is Build ==> match next {
                        Next::Apply { edid_key, requested } => {
                            &&& r.1 is Scan
                            &&& r.0 matches SwitchStage::Locating { edid_key: k, requested: q } && k@
                                == edid_key@ && q == requested
                        },
                        Next::Settle => {
                            &&& r.1 is Survey
                            &&& r.0 matches SwitchStage::Publishing { result } && result
                                == ApplyResult::Reverted
                        },
                    }
                    &&& final(d).slots.switch_result == old(d).slots.switch_result
                },
                SwitchStage::Locating { edid_key, requested } => {
                    &&& r.1 is Build <==> exists|k: int|
                        0 <= k < connectors.len() && (#[trigger] connectors[k]).connected
                            && connectors[k].key@ == edid_key@
                    &&& r.1 matches SwitchAction::Build { handle, requested: asked } ==> asked
                        == requested && exists|k: int|
                        0 <= k < connectors.len() && (#[trigger] connectors[k]).connected
                            && connectors[k].key@ == edid_key@ && connectors[k].handle == handle
                            && forall|j: int|
                            0 <= j < k ==> !(#[trigger] connectors[j]).connected
                                || connectors[j].key@ != edid_key@
                    &&& r.1 is Build ==> (r.0 matches SwitchStage::Switching { previous, mode } && {
                        &&& mode.width == old(d).ctx.outputs[0].current_drm_mode.width
                        &&& mode.height == old(d).ctx.outputs[0].current_drm_mode.height
                        &&& mode.refresh_mhz == 1000
                            * old(d).ctx.outputs[0].current_drm_mode.vrefresh
                        &&& match previous {
                            Some(p) => exists|k: int|
                                0 <= k < connectors.len() && (#[trigger] connectors[k]).handle
                                    == old(d).ctx.outputs[0].connector && connectors[k].key@ == p@
                                    && forall|j: int|
                                    0 <= j < k ==> (#[trigger] connectors[j]).handle
                                        != old(d).ctx.outputs[0].connector,
                            None => forall|j: int|
                                0 <= j < connectors.len() ==> (#[trigger] connectors[j]).handle
                                    != old(d).ctx.outputs[0].connector,
                        }
                    })
                    &&& r.1 is Build ==> final(d).slots.switch_result == old(d).slots.switch_result
                    &&& r.1 !is Build ==> r.1 is Done && r.0 is Finished
                        && final(d).slots.switch_result == Some(ApplyResult::Failed)
                },
                SwitchStage::Recalling { name, mode } => {
                    &&& r.1 is Build <==> exists|k: int|
                        0 <= k < connectors.len() && (#[trigger] connectors[k]).connected
                            && connectors[k].key@ == name@
                    &&& r.1 matches SwitchAction::Build { handle, requested: asked } ==> asked
                        == Some(mode) && exists|k: int|
                        0 <= k < connectors.len() && (#[trigger] connectors[k]).connected
                            && connectors[k].key@ == name@ && connectors[k].handle == handle
                            && forall|j: int|
                            0 <= j < k ==> !(#[trigger] connectors[j]).connected
                                || connectors[j].key@ != name@
                    &&& r.1 is Build ==> r.0 is Recovering && final(d).slots.switch_result
                        == old(d).slots.switch_result
                    &&& r.1 !is Build ==> r.1 is Done && r.0 is Finished
                        && final(d).slots.switch_result == Some(ApplyResult::Failed)
                },
                _ => true,
            },
            r.1 is Build ==> final(d).ctx.outputs[0] == (OutputPipe {
                drm_output: None,
                ..old(d).ctx.outputs[0]
            }),
            r.1 !is Build ==> final(d).ctx.outputs[0] == old(d).ctx.outputs[0],
            final(d).ctx.outputs.len() == old(d).ctx.outputs.len(),
            forall|i: int|
                1 <= i < old(d).ctx.outputs.len() ==> #[trigger] final(d).ctx.outputs[i] == old(
                    d,
                ).ctx.outputs[i],
            final(d).ctx.output_revert == old(d).ctx.output_revert,
            final(d).ctx.vulkan_mode == old(d).ctx.vulkan_mode,
            final(d).slots == (DisplaySlots {
                switch_result: final(d).slots.switch_result,
                ..old(d).slots
            }),
            r.1 matches SwitchAction::Survey { active, lit } ==> active
                == final(d).ctx.outputs[0].connector && lit@ == lit_list(final(d).ctx.outputs@),
    {
        match self {
            SwitchStage::Restoring { name, mode, next } => match find_target(connectors, &name) {
                Some(k) => {
                    d.ctx.tear_down();
                    (
                        SwitchStage::Rebuilding { next },
                        SwitchAction::Build {
                            handle: connectors[k].handle,
                            requested: Some(mode),
                        },
                    )
                },
                None => restored(next, &d.ctx),
            },
            SwitchStage::Locating { edid_key, requested } => {
                let previous = current_connector_name(connectors, d.ctx.outputs[0].connector);
                let mode = mode_info(d.ctx.outputs[0].current_drm_mode);
                match find_target(connectors, &edid_key) {
                    Some(k) => {
                        d.ctx.tear_down();
                        (
                            SwitchStage::Switching { previous, mode },
                            SwitchAction::Build { handle: connectors[k].handle, requested },
                        )
                    },
                    None => {
                        d.slots.set_result(ApplyResult::Failed);
                        (SwitchStage::Finished, SwitchAction::Done)
                    },
                }
            },
            SwitchStage::Recalling { name, mode } => match find_target(connectors, &name) {
                Some(k) => {
                    d.ctx.tear_down();
                    (
                        SwitchStage::Recovering,
                        SwitchAction::Build {
                            handle: connectors[k].handle,
                            requested: Some(mode),
                        },
                    )
                },
                None => {
                    d.slots.set_result(ApplyResult::Failed);
                    (SwitchStage::Finished, SwitchAction::Done)
                },
            },
            other => (other, SwitchAction::Done),
        }
    }

    /// Goes on with the output that was built, or was not.
    pub fn on_built<P: Platform>(
        self,
        d: &mut Display<P>,
        built: Result<Built<P>, String>,
    ) -> (r: (SwitchStage, SwitchAction))
        requires
            old(d).wf(),
            self@.awaits_build(),
            built matches Ok(b) ==> b.wf(),
        ensures
            final(d).wf(),
            (r.0@, final(d).switch_state(), r.1@) == step_built(
                self@,
                old(d).switch_state(),
                match built {
                    Ok(b) => Some((b.connector, b.drm_mode)),
                    Err(_) => None,
                },
            ),
            r.1.surveys(final(d).ctx),
            final(d).ctx.outputs@ == old(d).ctx.outputs@.update(
                0,
                match built {
                    Ok(b) => old(d).ctx.outputs[0].driving(b, old(d).ctx.vulkan_mode),
                    Err(_) => old(d).ctx.outputs[0].darkened(),
                },
            ),
            final(d).ctx.same_but_outputs(&old(d).ctx),
            final(d).slots_same_but_result(old(d)),
            match self {
                SwitchStage::Rebuilding { next } => {
                    &&& match next {
                        Next::Apply { edid_key, requested } => {
                            &&& r.1 is Scan
                            &&& r.0 matches SwitchStage::Locating { edid_key: k, requested: q } && k@
                                == edid_key@ && q == requested
                        },
                        Next::Settle => {
                            &&& r.1 is Survey
                            &&& r.0 matches SwitchStage::Publishing { result } && result
                                == ApplyResult::Reverted
                        },
                    }
                    &&& final(d).slots.switch_result == old(d).slots.switch_result
                },
                SwitchStage::Switching { previous, mode } => match (built, previous) {
                    (Ok(_), _) => {
                        &&& r.1 is Arm
                        &&& r.0 matches SwitchStage::Arming { previous: p, mode: m } && p == previous
                            && m == mode
                        &&& final(d).slots.switch_result == old(d).slots.switch_result
                    },
                    (Err(_), Some(p)) => {
                        &&& r.1 is Scan
                        &&& r.0 matches SwitchStage::Recalling { name, mode: m } && name@ == p@ && m
                            == mode
                        &&& final(d).slots.switch_result == old(d).slots.switch_result
                    },
                    (Err(_), None) => r.1 is Done && r.0 is Finished
                        && final(d).slots.switch_result == Some(ApplyResult::Failed),
                },
                SwitchStage::Recovering => r.0 is Finished && if built is Ok {
                    r.1 is Done && final(d).slots.switch_result == Some(ApplyResult::Failed)
                } else {
                    r.1 is Abort && final(d).slots.switch_result == old(d).slots.switch_result
                },
                _ => true,
            },
            built matches Ok(b) ==> ({
                let p = final(d).ctx.outputs[0];
                let was = old(d).ctx.outputs[0];
                &&& p.drm_output == Some(b.drm_output)
                &&& p.crtc == b.crtc
                &&& p.connector == b.connector
                &&& p.mode == b.mode
                &&& p.current_drm_mode == b.drm_mode
                &&& p.modes == b.modes
                &&& p.hdr_caps == b.hdr
                &&& p.hdr_active <==> b.hdr_wanted && b.hdr_capable && old(d).ctx.vulkan_mode
                &&& !p.hdr_signalled
                &&& p.x == was.x
                &&& p.output == was.output
                &&& p.mode_revert == was.mode_revert
                &&& p.in_flight == was.in_flight
            }),
            built is Err ==> final(d).ctx.outputs[0] == (OutputPipe {
                drm_output: None,
                ..old(d).ctx.outputs[0]
            }),
            final(d).ctx.outputs.len() == old(d).ctx.outputs.len(),
            forall|i: int|
                1 <= i < old(d).ctx.outputs.len() ==> #[trigger] final(d).ctx.outputs[i] == old(
                    d,
                ).ctx.outputs[i],
            final(d).ctx.output_revert == old(d).ctx.output_revert,
            final(d).ctx.vulkan_mode == old(d).ctx.vulkan_mode,
            final(d).slots == (DisplaySlots {
                switch_result: final(d).slots.switch_result,
                ..old(d).slots
            }),
            r.1 matches SwitchAction::Survey { active, lit } ==> active
                == final(d).ctx.outputs[0].connector && lit@ == lit_list(final(d).ctx.outputs@),
    {
        let lit = d.ctx.bring_up(built).is_ok();
        match self {
            SwitchStage::Rebuilding { next } => restored(next, &d.ctx),
            SwitchStage::Switching { previous, mode } => if lit {
                (SwitchStage::Arming { previous, mode }, SwitchAction::Arm)
            } else {
                match previous {
                    Some(name) => (SwitchStage::Recalling { name, mode }, SwitchAction::Scan),
                    None => {
                        d.slots.set_result(ApplyResult::Failed);
                        (SwitchStage::Finished, SwitchAction::Done)
                    },
                }
            },
            SwitchStage::Recovering => if lit {
                d.slots.set_result(ApplyResult::Failed);
                (SwitchStage::Finished, SwitchAction::Done)
            } else {
                (SwitchStage::Finished, SwitchAction::Abort)
            },
            other => (other, SwitchAction::Done),
        }
    }

    /// Goes on with the timer that was armed.
    pub fn on_armed<P: Platform>(self, d: &mut Display<P>, timer: P::Timer) -> (r: (
        SwitchStage,
        SwitchAction,
    ))
        requires
            old(d).wf(),
            self@ is Arming,
        ensures
            final(d).wf(),
            (r.0@, final(d).switch_state(), r.1@) == step_armed(self@, old(d).switch_state()),
            r.1.surveys(final(d).ctx),
            final(d).ctx.output_revert matches Some(b) ==> b.timer == timer,
            self matches SwitchStage::Arming { previous, mode } ==> match previous {
                Some(p) => final(d).ctx.output_revert matches Some(b) && b.connector_name@ == p@
                    && b.mode == mode && b.timer == timer,
                None => final(d).ctx.output_revert is None,
            },
            r.0 matches SwitchStage::Publishing { result } && result == ApplyResult::Provisional,
            r.1 is Survey,
            r.1 matches SwitchAction::Survey { active, lit } ==> active
                == final(d).ctx.outputs[0].connector && lit@ == lit_list(final(d).ctx.outputs@),
            final(d).ctx.outputs == old(d).ctx.outputs,
            final(d).ctx.vulkan_mode == old(d).ctx.vulkan_mode,
            final(d).slots == old(d).slots,
    {
        match self {
            SwitchStage::Arming { previous, mode } => {
                d.ctx.output_revert = match previous {
                    Some(connector_name) => Some(
                        OutputSwitchBaseline { connector_name, mode, timer },
                    ),
                    None => None,
                };
                (
                    SwitchStage::Publishing { result: ApplyResult::Provisional },
                    survey(&d.ctx),
                )
            },
            other => (other, SwitchAction::Done),
        }
    }

    /// Goes on with the snapshots that were taken.
    pub fn on_snapshots<P: Platform>(
        self,
        d: &mut Display<P>,
        snap: OutputsSnapshot,
        summary: P::Summary,
    ) -> (r: (SwitchStage, SwitchAction))
        requires
            self@ is Publishing,
        ensures
            (r.0@, final(d).switch_state(), r.1@) == step_published(self@, old(d).switch_state()),
            final(d).ctx == old(d).ctx,
            (DisplaySlots {
                switch_result: old(d).slots.switch_result,
                ..final(d).slots
            }).published(&old(d).slots, snap, summary),
            r.0 is Finished,
            r.1 is Redraw,
            self matches SwitchStage::Publishing { result } ==> final(d).slots.switch_result
                == Some(result),
            final(d).slots.outputs_snapshot == snap,
            final(d).slots.display_snapshot == summary,
            forall|i: int|
                0 <= i < snap.displays.len() && (#[trigger] snap.displays[i]).active && (forall|
                    j: int,
                |
                    0 <= j < i ==> !(#[trigger] snap.displays[j]).active) ==> {
                    &&& final(d).slots.modes_snapshot.edid_key@ == snap.displays[i].edid_key@
                    &&& final(d).slots.modes_snapshot.current == snap.displays[i].current
                    &&& final(d).slots.modes_snapshot.available@ == snap.displays[i].available@
                },
            (forall|i: int| 0 <= i < snap.displays.len() ==> !(#[trigger] snap.displays[i]).active)
                ==> final(d).slots.modes_snapshot == old(d).slots.modes_snapshot,
            final(d).slots.display_off == old(d).slots.display_off,
            final(d).slots.switch_request == old(d).slots.switch_request,
    {
        match self {
            SwitchStage::Publishing { result } => {
                d.slots.write_snapshots(snap, summary);
                d.slots.set_result(result);
                (SwitchStage::Finished, SwitchAction::Redraw)
            },
            other => (other, SwitchAction::Done),
        }
    }
}

} // verus!
