//! The display driver's slots: what the settings window asks for and is told.
use vstd::prelude::*;

use crate::output::ModeInfo;
use crate::pipe::{OutputPipe, Platform, RenderContext};

verus! {

/// How an output switch went.
#[derive(Clone, Copy, PartialEq, Eq, Structural, Debug)]
pub enum ApplyResult {
    /// The target is driven until it is kept or taken back.
    Provisional,
    /// The target is kept.
    Confirmed,
    /// The previous output is back.
    Reverted,
    /// The target could not be driven.
    Failed,
}

/// What the settings window asks for.
#[derive(Debug)]
pub enum OutputSwitchRequest {
    Apply { edid_key: String, mode: Option<ModeInfo> },
    Confirm,
    Revert,
}

/// What a taken request comes to.
#[derive(Debug)]
pub enum SwitchTask {
    /// Switch to a monitor.
    Apply { edid_key: String, requested: Option<ModeInfo> },
    /// End the provisional switch, taking it back or not.
    Finish { revert: bool },
}

/// The advertised modes of the active monitor.
#[derive(Debug)]
pub struct OutputModesSnapshot {
    pub edid_key: String,
    pub current: Option<ModeInfo>,
    pub available: Vec<ModeInfo>,
}

/// One monitor in the list of all.
#[derive(Debug)]
pub struct DisplayInfo {
    pub edid_key: String,
    pub active: bool,
    pub current: Option<ModeInfo>,
    pub available: Vec<ModeInfo>,
}

/// The list of all monitors.
#[derive(Debug)]
pub struct OutputsSnapshot {
    pub displays: Vec<DisplayInfo>,
}

impl OutputModesSnapshot {
    /// A snapshot of no monitor.
    pub open spec fn blank(&self) -> bool {
        self.edid_key@ == Seq::<char>::empty() && self.current is None && self.available@
            == Seq::<ModeInfo>::empty()
    }

    /// The snapshot of this monitor.
    pub open spec fn shows(&self, d: DisplayInfo) -> bool {
        self.edid_key@ == d.edid_key@ && self.current == d.current && self.available@
            == d.available@
    }

    fn none() -> (r: OutputModesSnapshot)
        ensures
            r.blank(),
    {
        OutputModesSnapshot { edid_key: String::new(), current: None, available: Vec::new() }
    }
}

/// The slots of the display driver.
pub struct DisplaySlots<P: Platform> {
    /// Whether the render loop idles for want of a monitor.
    pub display_off: bool,
    pub display_snapshot: P::Summary,
    pub modes_snapshot: OutputModesSnapshot,
    pub outputs_snapshot: OutputsSnapshot,
    pub switch_request: Option<OutputSwitchRequest>,
    pub switch_result: Option<ApplyResult>,
}

/// The driven outputs with the driver's slots.
pub struct Display<P: Platform> {
    pub ctx: RenderContext<P>,
    pub slots: DisplaySlots<P>,
}

/// Whether the listed monitor at `i` is the first active one.
pub open spec fn is_first_active(list: Seq<DisplayInfo>, i: int) -> bool {
    &&& 0 <= i < list.len()
    &&& list[i].active
    &&& forall|j: int| 0 <= j < i ==> !(#[trigger] list[j]).active
}

fn copy_modes(modes: &Vec<ModeInfo>) -> (r: Vec<ModeInfo>)
    ensures
        r@ == modes@,
{
    let mut copy: Vec<ModeInfo> = Vec::new();
    let mut i: usize = 0;
    while i < modes.len()
        invariant
            i <= modes.len(),
            copy@ == modes@.take(i as int),
        decreases modes.len() - i,
    {
        assert(modes@.take(i + 1) =~= modes@.take(i as int).push(modes[i as int]));
        copy.push(modes[i]);
        i = i + 1;
    }
    assert(modes@.take(modes.len() as int) =~= modes@);
    copy
}

impl<P: Platform> DisplaySlots<P> {
    /// The slots at start: nothing off, shown, asked or told.
    pub fn new(display_snapshot: P::Summary) -> (r: Self)
        ensures
            r.display_off == false,
            r.display_snapshot == display_snapshot,
            r.modes_snapshot.blank(),
            r.modes_snapshot.edid_key@.len() == 0,
            r.modes_snapshot.current is None,
            r.modes_snapshot.available.len() == 0,
            r.outputs_snapshot.displays.len() == 0,
            r.switch_request is None,
            r.switch_result is None,
    {
        DisplaySlots {
            display_off: false,
            display_snapshot,
            modes_snapshot: OutputModesSnapshot::none(),
            outputs_snapshot: OutputsSnapshot { displays: Vec::new() },
            switch_request: None,
            switch_result: None,
        }
    }

    /// Takes a pending request, if any, to be carried out where a modeset may run.
    pub fn drain(&mut self) -> (r: Option<SwitchTask>)
        ensures
            r == match old(self).switch_request {
                Some(OutputSwitchRequest::Apply { edid_key, mode }) => Some(
                    SwitchTask::Apply { edid_key, requested: mode },
                ),
                Some(OutputSwitchRequest::Confirm) => Some(SwitchTask::Finish { revert: false }),
                Some(OutputSwitchRequest::Revert) => Some(SwitchTask::Finish { revert: true }),
                None => None,
            },
            *final(self) == (DisplaySlots { switch_request: None, ..*old(self) }),
            r is None <==> old(self).switch_request is None,
    {
        match self.switch_request.take() {
            Some(OutputSwitchRequest::Apply { edid_key, mode }) => Some(
                SwitchTask::Apply { edid_key, requested: mode },
            ),
            Some(OutputSwitchRequest::Confirm) => Some(SwitchTask::Finish { revert: false }),
            Some(OutputSwitchRequest::Revert) => Some(SwitchTask::Finish { revert: true }),
            None => None,
        }
    }

    /// Tells the settings window how the switch went.
    pub fn set_result(&mut self, r: ApplyResult)
        ensures
            *final(self) == (DisplaySlots { switch_result: Some(r), ..*old(self) }),
    {
        self.switch_result = Some(r);
    }

    /// Whether the snapshots tell of the monitors `snap` and the summary `summary`, and the
    /// other slots are those of `other`.
    pub open spec fn published(
        &self,
        other: &Self,
        snap: OutputsSnapshot,
        summary: P::Summary,
    ) -> bool {
        &&& self.outputs_snapshot == snap
        &&& self.display_snapshot == summary
        &&& forall|i: int| #[trigger]
            is_first_active(snap.displays@, i) ==> self.modes_snapshot.shows(snap.displays[i])
        &&& (forall|i: int| !#[trigger] is_first_active(snap.displays@, i))
            ==> self.modes_snapshot == other.modes_snapshot
        &&& self.display_off == other.display_off
        &&& self.switch_request == other.switch_request
        &&& self.switch_result == other.switch_result
    }

    /// Rewrites the snapshots (full monitor list + active modes + summary) for the connector
    /// now driving the compositor. With no active monitor the active modes stay as they are.
    pub fn write_snapshots(&mut self, snap: OutputsSnapshot, summary: P::Summary)
        ensures
            final(self).published(old(self), snap, summary),
            final(self).outputs_snapshot == snap,
            final(self).display_snapshot == summary,
            forall|i: int|
                0 <= i < snap.displays.len() && (#[trigger] snap.displays[i]).active && (forall|
                    j: int,
                |
                    0 <= j < i ==> !(#[trigger] snap.displays[j]).active) ==> {
                    &&& final(self).modes_snapshot.edid_key@ == snap.displays[i].edid_key@
                    &&& final(self).modes_snapshot.current == snap.displays[i].current
                    &&& final(self).modes_snapshot.available@ == snap.displays[i].available@
                },
            (forall|i: int| 0 <= i < snap.displays.len() ==> !(#[trigger] snap.displays[i]).active)
                ==> final(self).modes_snapshot == old(self).modes_snapshot,
            final(self).display_off == old(self).display_off,
            final(self).switch_request == old(self).switch_request,
            final(self).switch_result == old(self).switch_result,
    {
        let mut i: usize = 0;
        let n: usize = snap.displays.len();
        while i < n && !snap.displays[i].active
            invariant
                n == snap.displays.len(),
                i <= n,
                forall|j: int| 0 <= j < i ==> !(#[trigger] snap.displays[j]).active,
            decreases n - i,
        {
            i = i + 1;
        }
        self.display_snapshot = summary;
        if i < n {
            let d = &snap.displays[i];
            self.modes_snapshot = OutputModesSnapshot {
                edid_key: d.edid_key.clone(),
                current: d.current,
                available: copy_modes(&d.available),
            };
            proof {
                assert(is_first_active(snap.displays@, i as int));
                assert forall|k: int| #[trigger] is_first_active(snap.displays@, k) implies k
                    == i by {
                    if k < i {
                        assert(!snap.displays[k].active);
                    } else if i < k {
                        assert(!snap.displays[i as int].active);
                    }
                }
            }
        }
        self.outputs_snapshot = snap;
        proof {
            assert forall|k: int|
                0 <= k < snap.displays.len() && (#[trigger] snap.displays[k]).active && (forall|
                    j: int,
                |
                    0 <= j < k ==> !(#[trigger] snap.displays[j]).active) implies k == i && i
                < n by {
                if k < i {
                    assert(!snap.displays[k].active);
                } else if i < k {
                    assert(!snap.displays[i as int].active);
                }
            }
            if i < n {
                assert(snap.displays[i as int].active);
            }
        }
    }
}

impl<P: Platform> Display<P> {
    /// The outputs are in order.
    pub open spec fn wf(&self) -> bool {
        self.ctx.wf()
    }

    /// Tears the display down and idles the render loop until a monitor returns.
    pub fn go_dark(&mut self)
        requires
            old(self).wf(),
        ensures
            final(self).wf(),
            final(self).ctx.outputs@ == old(self).ctx.outputs@.update(
                0,
                old(self).ctx.outputs[0].darkened(),
            ),
            final(self).ctx.same_but_outputs(&old(self).ctx),
            final(self).slots.display_off == true,
            final(self).slots.modes_snapshot.blank(),
            final(self).slots.modes_snapshot.edid_key@.len() == 0,
            final(self).slots.modes_snapshot.current is None,
            final(self).slots.modes_snapshot.available.len() == 0,
            final(self).slots.outputs_snapshot.displays.len() == 0,
            final(self).slots == (DisplaySlots {
                display_off: true,
                modes_snapshot: final(self).slots.modes_snapshot,
                outputs_snapshot: final(self).slots.outputs_snapshot,
                ..old(self).slots
            }),
            final(self).ctx.outputs.len() == old(self).ctx.outputs.len(),
            final(self).ctx.outputs[0] == (OutputPipe {
                drm_output: None,
                ..old(self).ctx.outputs[0]
            }),
            forall|i: int|
                1 <= i < old(self).ctx.outputs.len() ==> #[trigger] final(self).ctx.outputs[i]
                    == old(self).ctx.outputs[i],
            final(self).ctx.output_revert == old(self).ctx.output_revert,
            final(self).ctx.vulkan_mode == old(self).ctx.vulkan_mode,
    {
        self.ctx.tear_down();
        self.slots.display_off = true;
        self.slots.modes_snapshot = OutputModesSnapshot::none();
        self.slots.outputs_snapshot = OutputsSnapshot { displays: Vec::new() };
    }

    /// Darkens the PRIMARY pipe and idles the render loop; the secondary pipes are left.
    pub fn go_dark_primary(&mut self)
        requires
            old(self).wf(),
        ensures
            final(self).wf(),
            final(self).ctx.outputs@ == old(self).ctx.outputs@.update(
                0,
                old(self).ctx.outputs[0].darkened(),
            ),
            final(self).ctx.same_but_outputs(&old(self).ctx),
            final(self).slots == (DisplaySlots { display_off: true, ..old(self).slots }),
            final(self).ctx.outputs.len() == old(self).ctx.outputs.len(),
            final(self).ctx.outputs[0] == (OutputPipe {
                drm_output: None,
                ..old(self).ctx.outputs[0]
            }),
            forall|i: int|
                1 <= i < old(self).ctx.outputs.len() ==> #[trigger] final(self).ctx.outputs[i]
                    == old(self).ctx.outputs[i],
            final(self).ctx.output_revert == old(self).ctx.output_revert,
            final(self).ctx.vulkan_mode == old(self).ctx.vulkan_mode,
    {
        self.ctx.tear_down();
        self.slots.display_off = true;
    }
}

/// Published snapshots are those that were taken: the list and the summary as they are, and the
/// modes of the first monitor in the list that is active, if one is; nothing else is touched.
pub proof fn lemma_published<P: Platform>(
    now: &DisplaySlots<P>,
    before: &DisplaySlots<P>,
    snap: OutputsSnapshot,
    summary: P::Summary,
)
    requires
        now.published(before, snap, summary),
    ensures
        now.outputs_snapshot == snap,
        now.display_snapshot == summary,
        forall|i: int|
            0 <= i < snap.displays.len() && (#[trigger] snap.displays[i]).active && (forall|j: int|
                0 <= j < i ==> !(#[trigger] snap.displays[j]).active) ==> {
                &&& now.modes_snapshot.edid_key@ == snap.displays[i].edid_key@
                &&& now.modes_snapshot.current == snap.displays[i].current
                &&& now.modes_snapshot.available@ == snap.displays[i].available@
            },
        (forall|i: int| 0 <= i < snap.displays.len() ==> !(#[trigger] snap.displays[i]).active)
            ==> now.modes_snapshot == before.modes_snapshot,
        now.display_off == before.display_off,
        now.switch_request == before.switch_request,
        now.switch_result == before.switch_result,
{
    assert forall|i: int|
        0 <= i < snap.displays.len() && (#[trigger] snap.displays[i]).active && (forall|j: int|
            0 <= j < i ==> !(#[trigger] snap.displays[j]).active) implies {
        &&& now.modes_snapshot.edid_key@ == snap.displays[i].edid_key@
        &&& now.modes_snapshot.current == snap.displays[i].current
        &&& now.modes_snapshot.available@ == snap.displays[i].available@
    } by {
        assert(is_first_active(snap.displays@, i));
    }
    if forall|i: int| 0 <= i < snap.displays.len() ==> !(#[trigger] snap.displays[i]).active {
        assert forall|i: int| !#[trigger] is_first_active(snap.displays@, i) by {
            if 0 <= i < snap.displays.len() {
                assert(!snap.displays[i].active);
            }
        }
    }
}

} // verus!
