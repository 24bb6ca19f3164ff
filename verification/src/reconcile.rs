//! Hotplug reconciliation (SET reconciler): converge the driven outputs to the full set of
//! connected monitors: add newly connected ones as additional outputs, drop the ones that
//! vanished, and keep the primary as the anchor (failing over / going dark on it).
//!
//! The work between the decisions (a connector scan, a modeset) is the caller's: each decision
//! takes what the work came to and names the work that follows.
use vstd::prelude::*;

use crate::display::{Display, DisplaySlots, OutputsSnapshot};
use crate::output::{pick_target, picked, Connector, ModeInfo, Preferences};
use crate::pipe::{
    any_lit, controllers, edges_fit, lit_list, new_pipe, right_edge, tiled, total_width, Built,
    OutputPipe, Platform, RenderContext,
};

verus! {

/// What a reconciliation made of the outputs.
#[derive(Clone, Copy, PartialEq, Eq, Structural, Debug)]
pub enum OutputChange {
    /// No output is driven.
    WentDark,
    /// Outputs are driven again.
    Recovered,
    /// Outputs are driven, as they were before.
    Changed,
}

/// How far a reconciliation has come: what it waits for.
#[derive(Debug)]
pub enum ReconcileStage {
    /// For a scan.
    Scanning { was_dark: bool },
    /// For the output that the primary fails over to.
    Electing { was_dark: bool, connected: Vec<Connector> },
    /// For an additional output, on the connector at position `queue[next]`.
    Adding { was_dark: bool, connected: Vec<Connector>, queue: Vec<usize>, next: usize },
    /// For the snapshots of what is now driven.
    Publishing { was_dark: bool, live: bool },
}

/// The work that follows a decision.
#[derive(PartialEq, Debug)]
pub enum ReconcileAction {
    /// Build the primary output on the connector with this handle; the primary is dark, and no
    /// controller is to be left alone.
    BuildPrimary { handle: u32, requested: Option<ModeInfo> },
    /// Build an additional output on the connector with this handle, leaving the controllers in
    /// `busy` alone.
    BuildExtra { handle: u32, requested: Option<ModeInfo>, busy: Vec<u32> },
    /// Take the snapshots of what is driven: `active` is the primary's connector, `lit` the
    /// current mode of every driven pipe.
    Survey { active: u32, lit: Vec<(u32, ModeInfo)> },
}

/// The kind of work of a [`ReconcileAction`].
pub enum ReconcileWork {
    BuildPrimary { handle: u32, requested: Option<ModeInfo> },
    BuildExtra { handle: u32, requested: Option<ModeInfo> },
    Survey,
}

impl ReconcileAction {
    pub open spec fn view(&self) -> ReconcileWork {
        match self {
            ReconcileAction::BuildPrimary { handle, requested } => ReconcileWork::BuildPrimary {
                handle: *handle,
                requested: *requested,
            },
            ReconcileAction::BuildExtra { handle, requested, .. } => ReconcileWork::BuildExtra {
                handle: *handle,
                requested: *requested,
            },
            ReconcileAction::Survey { .. } => ReconcileWork::Survey,
        }
    }

    /// Whether what is asked for leaves the controllers of these pipes alone, and snapshots are
    /// asked for what they drive.
    pub open spec fn about<P: Platform>(&self, ctx: RenderContext<P>) -> bool {
        match self {
            ReconcileAction::BuildPrimary { .. } => true,
            ReconcileAction::BuildExtra { busy, .. } => busy@ == controllers(ctx.outputs@),
            ReconcileAction::Survey { active, lit } => *active == ctx.outputs[0].connector && lit@
                == lit_list(ctx.outputs@),
        }
    }
}

/// The opposite of a predicate.
pub open spec fn negation<T>(p: spec_fn(T) -> bool) -> spec_fn(T) -> bool {
    |x: T| !p(x)
}

/// Removes from position `start` on every element that `keep` rejects, and returns those.
fn retain_from<T, F: Fn(&T) -> bool>(
    v: &mut Vec<T>,
    start: usize,
    keep: F,
    Ghost(p): Ghost<spec_fn(T) -> bool>,
) -> (removed: Vec<T>)
    requires
        start <= old(v).len(),
        forall|x: &T| call_requires(keep, (x,)),
        forall|x: &T, b: bool| call_ensures(keep, (x,), b) ==> b == p(*x),
    ensures
        final(v)@ == old(v)@.take(start as int) + old(v)@.skip(start as int).filter(p),
        removed@ == old(v)@.skip(start as int).filter(negation(p)),
{
    let ghost all = v@;
    let ghost tail = all.skip(start as int);
    let ghost mut seen: int = 0;
    let mut removed: Vec<T> = Vec::new();
    let mut i: usize = start;
    proof {
        reveal(Seq::filter);
        assert(tail.take(0).filter(p) =~= Seq::empty());
        assert(tail.take(0).filter(negation(p)) =~= Seq::empty());
        assert(v@ =~= all.take(start as int) + tail.take(0).filter(p) + tail.skip(0));
    }
    while i < v.len()
        invariant
            start <= all.len(),
            tail == all.skip(start as int),
            0 <= seen <= tail.len(),
            forall|x: &T| call_requires(keep, (x,)),
            forall|x: &T, b: bool| call_ensures(keep, (x,), b) ==> b == p(*x),
            v@ == all.take(start as int) + tail.take(seen).filter(p) + tail.skip(seen),
            removed@ == tail.take(seen).filter(negation(p)),
            i == start + tail.take(seen).filter(p).len(),
        decreases tail.len() - seen,
    {
        let ghost kept = tail.take(seen).filter(p);
        proof {
            reveal(Seq::filter);
            assert(tail.take(seen + 1).drop_last() =~= tail.take(seen));
            assert(v@[i as int] == tail[seen]);
        }
        if !keep(&v[i]) {
            let x = v.remove(i);
            removed.push(x);
            proof {
                assert(v@ =~= all.take(start as int) + kept + tail.skip(seen + 1));
            }
        } else {
            i = i + 1;
            proof {
                assert(v@ =~= all.take(start as int) + kept.push(tail[seen]) + tail.skip(seen + 1));
            }
        }
        proof {
            seen = seen + 1;
        }
    }
    proof {
        assert(tail.take(seen) =~= tail);
        assert(v@ =~= all.take(start as int) + tail.filter(p));
    }
    removed
}

/// Whether a monitor is connected.
pub open spec fn plugged() -> spec_fn(Connector) -> bool {
    |c: Connector| c.connected
}

/// Whether one of the connectors has this handle.
pub open spec fn lists(connected: Seq<Connector>, handle: u32) -> bool {
    exists|i: int| 0 <= i < connected.len() && (#[trigger] connected[i]).handle == handle
}

/// The connectors that are plugged in are those of the scan whose monitor is connected.
pub proof fn lemma_plugged(connectors: Seq<Connector>)
    ensures
        forall|h: u32| #[trigger]
            lists(connectors.filter(plugged()), h) <==> exists|j: int|
                0 <= j < connectors.len() && (#[trigger] connectors[j]).connected
                    && connectors[j].handle == h,
        connectors.filter(plugged()).len() == 0 <==> forall|j: int|
            0 <= j < connectors.len() ==> !(#[trigger] connectors[j]).connected,
{
    let connected = connectors.filter(plugged());
    assert forall|h: u32| #[trigger] lists(connected, h) implies exists|j: int|
        0 <= j < connectors.len() && (#[trigger] connectors[j]).connected && connectors[j].handle
            == h by {
        let i = choose|i: int| 0 <= i < connected.len() && (#[trigger] connected[i]).handle == h;
        connectors.lemma_filter_pred(plugged(), i);
        assert(connected.contains(connected[i]));
        connectors.lemma_filter_contains_rev(plugged(), connected[i]);
        let j = choose|j: int| 0 <= j < connectors.len() && connectors[j] == connected[i];
        assert(connectors[j].connected);
    }
    assert forall|h: u32|
        (exists|j: int|
            0 <= j < connectors.len() && (#[trigger] connectors[j]).connected
                && connectors[j].handle == h) implies #[trigger] lists(connected, h) by {
        let j = choose|j: int|
            0 <= j < connectors.len() && (#[trigger] connectors[j]).connected
                && connectors[j].handle == h;
        connectors.lemma_filter_contains(plugged(), j);
        let i = choose|i: int| 0 <= i < connected.len() && connected[i] == connectors[j];
        assert(connected[i].handle == h);
    }
    if connected.len() > 0 {
        connectors.lemma_filter_pred(plugged(), 0);
        assert(connected.contains(connected[0]));
        connectors.lemma_filter_contains_rev(plugged(), connected[0]);
        let j = choose|j: int| 0 <= j < connectors.len() && connectors[j] == connected[0];
        assert(connectors[j].connected);
    }
    assert forall|j: int| 0 <= j < connectors.len() && connected.len() == 0 implies !(
    #[trigger] connectors[j]).connected by {
        if connectors[j].connected {
            connectors.lemma_filter_contains(plugged(), j);
        }
    }
}

/// Whether a pipe's connector is one of the connectors.
pub open spec fn still_there<P: Platform>(connected: Seq<Connector>) -> spec_fn(
    OutputPipe<P>,
) -> bool {
    |p: OutputPipe<P>| lists(connected, p.connector)
}

/// Whether a driven pipe has this connector.
pub open spec fn drives<P: Platform>(pipes: Seq<OutputPipe<P>>, handle: u32) -> bool {
    exists|i: int|
        0 <= i < pipes.len() && (#[trigger] pipes[i]).lit() && pipes[i].connector == handle
}

/// The positions below `n` of the connectors that no pipe drives.
pub open spec fn undriven<P: Platform>(
    pipes: Seq<OutputPipe<P>>,
    connected: Seq<Connector>,
    n: int,
) -> Seq<usize>
    decreases n,
{
    if n <= 0 {
        Seq::empty()
    } else if drives(pipes, connected[n - 1].handle) {
        undriven(pipes, connected, n - 1)
    } else {
        undriven(pipes, connected, n - 1).push((n - 1) as usize)
    }
}

/// [`ReconcileStage`] with its lists as sequences.
#[verifier::ext_equal]
pub enum ReconcileModel {
    Scanning { was_dark: bool },
    Electing { was_dark: bool, connected: Seq<Connector> },
    Adding { was_dark: bool, connected: Seq<Connector>, queue: Seq<usize>, next: nat },
    Publishing { was_dark: bool, live: bool },
}

/// What a reconciliation reads and writes of the display.
#[verifier::ext_equal]
pub struct ReconcileState<P: Platform> {
    pub pipes: Seq<OutputPipe<P>>,
    pub display_off: bool,
    pub vulkan_mode: bool,
}

impl ReconcileStage {
    pub open spec fn view(&self) -> ReconcileModel {
        match self {
            ReconcileStage::Scanning { was_dark } => ReconcileModel::Scanning {
                was_dark: *was_dark,
            },
            ReconcileStage::Electing { was_dark, connected } => ReconcileModel::Electing {
                was_dark: *was_dark,
                connected: connected@,
            },
            ReconcileStage::Adding { was_dark, connected, queue, next } => ReconcileModel::Adding {
                was_dark: *was_dark,
                connected: connected@,
                queue: queue@,
                next: *next as nat,
            },
            ReconcileStage::Publishing { was_dark, live } => ReconcileModel::Publishing {
                was_dark: *was_dark,
                live: *live,
            },
        }
    }
}

impl ReconcileModel {
    /// The queue names connectors, and the next of them is there.
    pub open spec fn wf(self) -> bool {
        match self {
            ReconcileModel::Adding { connected, queue, next, .. } => next < queue.len() && forall|
                i: int,
            |
                0 <= i < queue.len() ==> (#[trigger] queue[i]) < connected.len(),
            _ => true,
        }
    }
}

/// The step from a settled primary, or from one addition to the next, to what follows: the next
/// addition, or the end.
pub open spec fn go_on<P: Platform>(
    was_dark: bool,
    connected: Seq<Connector>,
    queue: Seq<usize>,
    next: nat,
    s: ReconcileState<P>,
    prefs: Preferences,
) -> (ReconcileModel, ReconcileState<P>, ReconcileWork) {
    if next < queue.len() {
        let c = connected[queue[next as int] as int];
        (
            ReconcileModel::Adding { was_dark, connected, queue, next },
            s,
            ReconcileWork::BuildExtra { handle: c.handle, requested: prefs.mode_for(c.key@) },
        )
    } else {
        let live = any_lit(s.pipes);
        (
            ReconcileModel::Publishing { was_dark, live },
            ReconcileState { display_off: s.display_off && !live, ..s },
            ReconcileWork::Survey,
        )
    }
}

/// The first addition, once the primary is settled.
pub open spec fn begin_adding<P: Platform>(
    was_dark: bool,
    connected: Seq<Connector>,
    s: ReconcileState<P>,
    prefs: Preferences,
) -> (ReconcileModel, ReconcileState<P>, ReconcileWork) {
    go_on(
        was_dark,
        connected,
        undriven(s.pipes, connected, connected.len() as int),
        0,
        s,
        prefs,
    )
}

impl<P: Platform> ReconcileState<P> {
    /// The state with the primary dark, and the render loop idle for it.
    pub open spec fn primary_dark(self) -> ReconcileState<P> {
        ReconcileState {
            pipes: self.pipes.update(0, self.pipes[0].darkened()),
            display_off: true,
            ..self
        }
    }
}

/// What a scan comes to: the secondary outputs whose connector vanished are dropped; a primary
/// that does not drive a connected monitor fails over to the preferred connected one, else goes
/// dark.
pub open spec fn step_connectors<P: Platform>(
    was_dark: bool,
    s: ReconcileState<P>,
    connectors: Seq<Connector>,
    prefs: Preferences,
) -> (ReconcileModel, ReconcileState<P>, ReconcileWork) {
    let connected = connectors.filter(plugged());
    let pipes = s.pipes.take(1) + s.pipes.skip(1).filter(still_there(connected));
    let pruned = ReconcileState { pipes, ..s };
    if pipes[0].lit() && lists(connected, pipes[0].connector) {
        begin_adding(was_dark, connected, pruned, prefs)
    } else {
        match picked(connected, prefs.preferred()) {
            Some(k) => (
                ReconcileModel::Electing { was_dark, connected },
                ReconcileState { pipes: pipes.update(0, pipes[0].darkened()), ..s },
                ReconcileWork::BuildPrimary {
                    handle: connected[k].handle,
                    requested: prefs.mode_for(connected[k].key@),
                },
            ),
            None => begin_adding(was_dark, connected, pruned.primary_dark(), prefs),
        }
    }
}

/// What the build of the primary comes to.
pub open spec fn step_primary<P: Platform>(
    was_dark: bool,
    connected: Seq<Connector>,
    s: ReconcileState<P>,
    built: Option<Built<P>>,
    prefs: Preferences,
) -> (ReconcileModel, ReconcileState<P>, ReconcileWork) {
    let settled = match built {
        Some(b) => ReconcileState {
            pipes: s.pipes.update(0, s.pipes[0].driving(b, s.vulkan_mode)),
            display_off: false,
            ..s
        },
        None => s.primary_dark(),
    };
    begin_adding(was_dark, connected, settled, prefs)
}

/// What the build of an additional output comes to.
pub open spec fn step_added<P: Platform>(
    was_dark: bool,
    connected: Seq<Connector>,
    queue: Seq<usize>,
    next: nat,
    s: ReconcileState<P>,
    output: P::Output,
    built: Option<Built<P>>,
    prefs: Preferences,
) -> (ReconcileModel, ReconcileState<P>, ReconcileWork) {
    let now = match built {
        Some(b) => ReconcileState {
            pipes: s.pipes.push(new_pipe(output, right_edge(s.pipes) as i32, b, s.vulkan_mode)),
            ..s
        },
        None => s,
    };
    go_on(was_dark, connected, queue, next + 1, now, prefs)
}

/// What a reconciliation made of the outputs.
pub open spec fn change(was_dark: bool, live: bool) -> OutputChange {
    if !live {
        OutputChange::WentDark
    } else if was_dark {
        OutputChange::Recovered
    } else {
        OutputChange::Changed
    }
}

fn has_connector(connected: &Vec<Connector>, handle: u32) -> (r: bool)
    ensures
        r == lists(connected@, handle),
{
    let mut i: usize = 0;
    while i < connected.len()
        invariant
            i <= connected.len(),
            forall|j: int| 0 <= j < i ==> (#[trigger] connected[j]).handle != handle,
        decreases connected.len() - i,
    {
        if connected[i].handle == handle {
            assert(connected[i as int].handle == handle);
            return true;
        }
        i = i + 1;
    }
    false
}

impl<P: Platform> Display<P> {
    /// What a reconciliation reads and writes of the display.
    pub open spec fn reconcile_state(&self) -> ReconcileState<P> {
        ReconcileState {
            pipes: self.ctx.outputs@,
            display_off: self.slots.display_off,
            vulkan_mode: self.ctx.vulkan_mode,
        }
    }

    /// Whether nothing but the outputs and the idling of the render loop differs.
    pub open spec fn same_but_reconciled(&self, other: &Self) -> bool {
        &&& self.ctx.output_revert == other.ctx.output_revert
        &&& self.slots == (DisplaySlots { display_off: self.slots.display_off, ..other.slots })
    }

    fn is_driven(&self, handle: u32) -> (r: bool)
        ensures
            r == drives(self.ctx.outputs@, handle),
    {
        let mut i: usize = 0;
        while i < self.ctx.outputs.len()
            invariant
                i <= self.ctx.outputs.len(),
                forall|j: int|
                    0 <= j < i ==> !((#[trigger] self.ctx.outputs[j]).lit()
                        && self.ctx.outputs[j].connector == handle),
            decreases self.ctx.outputs.len() - i,
        {
            let p = &self.ctx.outputs[i];
            if p.drm_output.is_some() && p.connector == handle {
                assert(self.ctx.outputs[i as int].lit());
                return true;
            }
            i = i + 1;
        }
        false
    }

    fn find_undriven(&self, connected: &Vec<Connector>) -> (r: Vec<usize>)
        ensures
            r@ == undriven(self.ctx.outputs@, connected@, connected.len() as int),
            forall|i: int| 0 <= i < r.len() ==> (#[trigger] r[i]) < connected.len(),
    {
        let mut queue: Vec<usize> = Vec::new();
        let mut i: usize = 0;
        while i < connected.len()
            invariant
                i <= connected.len(),
                queue@ == undriven(self.ctx.outputs@, connected@, i as int),
                forall|j: int| 0 <= j < queue.len() ==> (#[trigger] queue[j]) < connected.len(),
            decreases connected.len() - i,
        {
            if !self.is_driven(connected[i].handle) {
                queue.push(i);
            }
            i = i + 1;
        }
        queue
    }

    /// Begins a reconciliation. It supersedes a pending switch, whose timer, which is to be
    /// cancelled, comes with the stage; a scan is the work that follows.
    pub fn reconcile(&mut self) -> (r: (Option<P::Timer>, ReconcileStage))
        ensures
            r.0 == match old(self).ctx.output_revert {
                Some(b) => Some(b.timer),
                None => None,
            },
            r.1@ == (ReconcileModel::Scanning { was_dark: !any_lit(old(self).ctx.outputs@) }),
            r.1 matches ReconcileStage::Scanning { was_dark } && (was_dark <==> forall|i: int|
                0 <= i < old(self).ctx.outputs.len() ==> (
                #[trigger] old(self).ctx.outputs[i]).drm_output is None),
            final(self).ctx.output_revert is None,
            final(self).ctx.outputs == old(self).ctx.outputs,
            final(self).ctx.vulkan_mode == old(self).ctx.vulkan_mode,
            final(self).slots == old(self).slots,
    {
        let timer = match self.ctx.output_revert.take() {
            Some(b) => Some(b.timer),
            None => None,
        };
        (timer, ReconcileStage::Scanning { was_dark: !self.ctx.any_live() })
    }

    fn next_addition(
        &mut self,
        was_dark: bool,
        connected: Vec<Connector>,
        queue: Vec<usize>,
        next: usize,
        prefs: &Preferences,
    ) -> (r: (ReconcileStage, ReconcileAction))
        requires
            old(self).wf(),
            next <= queue.len(),
            forall|i: int| 0 <= i < queue.len() ==> (#[trigger] queue[i]) < connected.len(),
        ensures
            (r.0@, final(self).reconcile_state(), r.1@) == go_on(
                was_dark,
                connected@,
                queue@,
                next as nat,
                old(self).reconcile_state(),
                *prefs,
            ),
            r.0@.wf(),
            r.1.about(final(self).ctx),
            final(self).ctx == old(self).ctx,
            final(self).same_but_reconciled(old(self)),
    {
        if next < queue.len() {
            let c = &connected[queue[next]];
            let action = ReconcileAction::BuildExtra {
                handle: c.handle,
                requested: prefs.pref_mode(&c.key),
                busy: self.ctx.busy(),
            };
            (ReconcileStage::Adding { was_dark, connected, queue, next }, action)
        } else {
            let live = self.ctx.any_live();
            if live {
                self.slots.display_off = false;
            }
            let action = ReconcileAction::Survey {
                active: self.ctx.outputs[0].connector,
                lit: self.ctx.lit_modes(),
            };
            (ReconcileStage::Publishing { was_dark, live }, action)
        }
    }
}

impl ReconcileStage {
    /// Goes on with what a scan found. The outputs that were dropped, which are to be unmapped,
    /// come with the stage.
    pub fn on_connectors<P: Platform>(
        self,
        d: &mut Display<P>,
        connectors: Vec<Connector>,
        prefs: &Preferences,
    ) -> (r: (ReconcileStage, ReconcileAction, Vec<OutputPipe<P>>))
        requires
            old(d).wf(),
            self@ is Scanning,
        ensures
            final(d).wf(),
            r.0@.wf(),
            r.1.about(final(d).ctx),
            (r.0@, final(d).reconcile_state(), r.1@) == step_connectors(
                self@->Scanning_was_dark,
                old(d).reconcile_state(),
                connectors@,
                *prefs,
            ),
            r.2@ == old(d).ctx.outputs@.skip(1).filter(
                negation(still_there(connectors@.filter(plugged()))),
            ),
            final(d).same_but_reconciled(old(d)),
            match r.0 {
                ReconcileStage::Electing { was_dark: w, .. }
                | ReconcileStage::Adding { was_dark: w, .. }
                | ReconcileStage::Publishing { was_dark: w, .. }
                | ReconcileStage::Scanning { was_dark: w } => w == self->Scanning_was_dark,
            },
            r.0 is Electing ==> final(d).ctx.outputs[0] == (OutputPipe {
                drm_output: None,
                ..old(d).ctx.outputs[0]
            }),
            old(d).ctx.outputs[0].drm_output is Some && (exists|j: int|
                0 <= j < connectors.len() && (#[trigger] connectors[j]).connected
                    && connectors[j].handle == old(d).ctx.outputs[0].connector)
                ==> final(d).ctx.outputs[0] == old(d).ctx.outputs[0] && r.0 !is Electing,
            (forall|j: int| 0 <= j < connectors.len() ==> !(#[trigger] connectors[j]).connected)
                ==> final(d).ctx.outputs[0] == (OutputPipe {
                drm_output: None,
                ..old(d).ctx.outputs[0]
            }) && r.0 is Publishing && final(d).slots.display_off,
            r.1 matches ReconcileAction::BuildExtra { busy, .. } ==> busy.len()
                == final(d).ctx.outputs.len() && forall|i: int|
                0 <= i < busy.len() ==> #[trigger] busy[i] == final(d).ctx.outputs[i].crtc,
            r.1 matches ReconcileAction::Survey { active, lit } ==> active
                == final(d).ctx.outputs[0].connector && lit@ == lit_list(final(d).ctx.outputs@),
            r.1 is Survey <==> r.0 is Publishing,
            r.1 is BuildExtra <==> r.0 is Adding,
            r.1 is BuildPrimary <==> r.0 is Electing,
            r.0 matches ReconcileStage::Publishing { live, .. } ==> {
                &&& live <==> exists|i: int|
                    0 <= i < final(d).ctx.outputs.len() && (
                    #[trigger] final(d).ctx.outputs[i]).drm_output is Some
                &&& live ==> !final(d).slots.display_off
            },
            r.0 matches ReconcileStage::Adding { connected, queue, next, .. } ==> {
                let c = connected[queue[next as int] as int];
                r.1 matches ReconcileAction::BuildExtra { handle, requested, .. } && handle
                    == c.handle && requested == prefs.mode_for(c.key@)
            },
            final(d).ctx.output_revert == old(d).ctx.output_revert,
            final(d).ctx.vulkan_mode == old(d).ctx.vulkan_mode,
            final(d).slots == (DisplaySlots {
                display_off: final(d).slots.display_off,
                ..old(d).slots
            }),
    {
        let was_dark = match self {
            ReconcileStage::Scanning { was_dark } => was_dark,
            _ => false,
        };
        let mut connected = connectors;
        let is_plugged = |c: &Connector| -> (b: bool)
            ensures
                b == c.connected,
            {
                c.connected
            };
        let _unplugged = retain_from(&mut connected, 0, is_plugged, Ghost(plugged()));
        proof {
            assert(connectors@.skip(0) =~= connectors@);
            assert(connected@ =~= connectors@.filter(plugged()));
        }
        let is_there = |p: &OutputPipe<P>| -> (b: bool)
            ensures
                b == lists(connected@, p.connector),
            {
                has_connector(&connected, p.connector)
            };
        let removed = retain_from(&mut d.ctx.outputs, 1, is_there, Ghost(still_there(connected@)));
        proof {
            let all = old(d).ctx.outputs@;
            assert forall|i: int| 0 <= i < d.ctx.outputs.len() implies (
            #[trigger] d.ctx.outputs[i]).wf() by {
                if i > 0 {
                    let kept = all.skip(1).filter(still_there(connected@));
                    assert(d.ctx.outputs[i] == kept[i - 1]);
                    assert(kept.contains(kept[i - 1]));
                    all.skip(1).lemma_filter_contains_rev(still_there(connected@), kept[i - 1]);
                    let j = choose|j: int|
                        0 <= j < all.skip(1).len() && all.skip(1)[j] == kept[i - 1];
                    assert(all[j + 1] == kept[i - 1]);
                } else {
                    assert(d.ctx.outputs[0] == all[0]);
                }
            }
        }
        proof {
            lemma_plugged(connectors@);
            let kept = old(d).ctx.outputs@.skip(1).filter(still_there(connected@));
            if connected.len() == 0 && kept.len() > 0 {
                old(d).ctx.outputs@.skip(1).lemma_filter_pred(still_there(connected@), 0);
            }
        }
        let primary = &d.ctx.outputs[0];
        let primary_live = primary.drm_output.is_some() && has_connector(
            &connected,
            primary.connector,
        );
        if !primary_live {
            match pick_target(&connected, prefs.preferred_key()) {
                Some(k) => {
                    let action = ReconcileAction::BuildPrimary {
                        handle: connected[k].handle,
                        requested: prefs.pref_mode(&connected[k].key),
                    };
                    d.ctx.tear_down();
                    return (ReconcileStage::Electing { was_dark, connected }, action, removed);
                },
                None => {
                    d.go_dark_primary();
                },
            }
        }
        let queue = d.find_undriven(&connected);
        let (stage, action) = d.next_addition(was_dark, connected, queue, 0, prefs);
        (stage, action, removed)
    }

    /// Goes on with the primary output that was built, or was not.
    pub fn on_primary_built<P: Platform>(
        self,
        d: &mut Display<P>,
        built: Result<Built<P>, String>,
        prefs: &Preferences,
    ) -> (r: (ReconcileStage, ReconcileAction))
        requires
            old(d).wf(),
            self@ is Electing,
            built matches Ok(b) ==> b.wf(),
        ensures
            final(d).wf(),
            r.0@.wf(),
            r.1.about(final(d).ctx),
            (r.0@, final(d).reconcile_state(), r.1@) == step_primary(
                self@->Electing_was_dark,
                self@->Electing_connected,
                old(d).reconcile_state(),
                match built {
                    Ok(b) => Some(b),
                    Err(_) => None,
                },
                *prefs,
            ),
            final(d).same_but_reconciled(old(d)),
            match r.0 {
                ReconcileStage::Electing { was_dark: w, .. }
                | ReconcileStage::Adding { was_dark: w, .. }
                | ReconcileStage::Publishing { was_dark: w, .. }
                | ReconcileStage::Scanning { was_dark: w } => w == self->Electing_was_dark,
            },
            built matches Ok(b) ==> ({
                let p = final(d).ctx.outputs[0];
                let was = old(d).ctx.outputs[0];
                &&& p.drm_output == Some(b.drm_output)
                &&& p.crtc == b.crtc
                &&& p.connector == b.connector
                &&& p.mode == b.mode
                &&& p.current_drm_mode == b.drm_mode
                &&& p.modes == b.modes
                &&& p.hdr_caps == b.hdr
                &&& p.hdr_active <==> b.hdr_wanted && b.hdr_capable && old(d).ctx.vulkan_mode
                &&& !p.hdr_signalled
                &&& p.x == was.x
                &&& p.output == was.output
                &&& p.mode_revert == was.mode_revert
                &&& p.in_flight == was.in_flight
                &&& !final(d).slots.display_off
            }),
            built is Err ==> final(d).ctx.outputs[0] == (OutputPipe {
                drm_output: None,
                ..old(d).ctx.outputs[0]
            }),
            built is Err && r.0 is Adding ==> final(d).slots.display_off,
            final(d).ctx.outputs.len() == old(d).ctx.outputs.len(),
            forall|i: int|
                1 <= i < old(d).ctx.outputs.len() ==> #[trigger] final(d).ctx.outputs[i] == old(
                    d,
                ).ctx.outputs[i],
            r.0 matches ReconcileStage::Adding { connected, .. } ==> self->Electing_connected@
                == connected@,
            r.1 matches ReconcileAction::BuildExtra { busy, .. } ==> busy.len()
                == final(d).ctx.outputs.len() && forall|i: int|
                0 <= i < busy.len() ==> #[trigger] busy[i] == final(d).ctx.outputs[i].crtc,
            r.1 matches ReconcileAction::Survey { active, lit } ==> active
                == final(d).ctx.outputs[0].connector && lit@ == lit_list(final(d).ctx.outputs@),
            r.1 is Survey <==> r.0 is Publishing,
            r.1 is BuildExtra <==> r.0 is Adding,
            r.1 is BuildPrimary <==> r.0 is Electing,
            r.0 matches ReconcileStage::Publishing { live, .. } ==> {
                &&& live <==> exists|i: int|
                    0 <= i < final(d).ctx.outputs.len() && (
                    #[trigger] final(d).ctx.outputs[i]).drm_output is Some
                &&& live ==> !final(d).slots.display_off
            },
            r.0 matches ReconcileStage::Adding { connected, queue, next, .. } ==> {
                let c = connected[queue[next as int] as int];
                r.1 matches ReconcileAction::BuildExtra { handle, requested, .. } && handle
                    == c.handle && requested == prefs.mode_for(c.key@)
            },
            final(d).ctx.output_revert == old(d).ctx.output_revert,
            final(d).ctx.vulkan_mode == old(d).ctx.vulkan_mode,
            final(d).slots == (DisplaySlots {
                display_off: final(d).slots.display_off,
                ..old(d).slots
            }),
    {
        let (was_dark, connected) = match self {
            ReconcileStage::Electing { was_dark, connected } => (was_dark, connected),
            _ => (false, Vec::new()),
        };
        if d.ctx.bring_up(built).is_ok() {
            d.slots.display_off = false;
        } else {
            d.go_dark_primary();
            assert(d.ctx.outputs@ =~= old(d).ctx.outputs@.update(
                0,
                old(d).ctx.outputs[0].darkened(),
            ));
        }
        let queue = d.find_undriven(&connected);
        d.next_addition(was_dark, connected, queue, 0, prefs)
    }

    /// Goes on with the additional output that was built, or was not; says where it lies.
    pub fn on_added<P: Platform>(
        self,
        d: &mut Display<P>,
        output: P::Output,
        built: Result<Built<P>, String>,
        prefs: &Preferences,
    ) -> (r: (ReconcileStage, ReconcileAction, Result<i32, String>))
        requires
            old(d).wf(),
            self@ is Adding,
            self@.wf(),
            built matches Ok(b) ==> b.wf() && edges_fit(old(d).ctx.outputs@),
        ensures
            final(d).wf(),
            r.0@.wf(),
            r.1.about(final(d).ctx),
            (r.0@, final(d).reconcile_state(), r.1@) == step_added(
                self@->Adding_was_dark,
                self@->Adding_connected,
                self@->queue,
                self@->next,
                old(d).reconcile_state(),
                output,
                match built {
                    Ok(b) => Some(b),
                    Err(_) => None,
                },
                *prefs,
            ),
            match built {
                Ok(_) => r.2 matches Ok(x) && x == right_edge(old(d).ctx.outputs@),
                Err(e) => r.2 == Err::<i32, String>(e),
            },
            r.2 matches Ok(x) ==> (forall|i: int|
                0 <= i < old(d).ctx.outputs.len() ==> x >= (#[trigger] old(d).ctx.outputs[i]).x
                    + old(d).ctx.outputs[i].mode.width),
            r.2 matches Ok(x) ==> (tiled(old(d).ctx.outputs@) ==> x == total_width(
                old(d).ctx.outputs@,
            )),
            final(d).same_but_reconciled(old(d)),
            match r.0 {
                ReconcileStage::Electing { was_dark: w, .. }
                | ReconcileStage::Adding { was_dark: w, .. }
                | ReconcileStage::Publishing { was_dark: w, .. }
                | ReconcileStage::Scanning { was_dark: w } => w == self->Adding_was_dark,
            },
            built matches Ok(b) ==> ({
                let p = final(d).ctx.outputs[old(d).ctx.outputs.len() as int];
                &&& final(d).ctx.outputs.len() == old(d).ctx.outputs.len() + 1
                &&& r.2 == Ok::<i32, String>(p.x)
                &&& p.drm_output == Some(b.drm_output)
                &&& p.crtc == b.crtc
                &&& p.connector == b.connector
                &&& p.mode == b.mode
                &&& p.current_drm_mode == b.drm_mode
                &&& p.modes == b.modes
                &&& p.hdr_caps == b.hdr
                &&& p.hdr_active <==> b.hdr_wanted && b.hdr_capable && old(d).ctx.vulkan_mode
                &&& !p.hdr_signalled
                &&& p.output == output
                &&& p.mode_revert is None
                &&& !p.in_flight
            }),
            built is Err ==> final(d).ctx.outputs.len() == old(d).ctx.outputs.len(),
            forall|i: int|
                0 <= i < old(d).ctx.outputs.len() ==> #[trigger] final(d).ctx.outputs[i] == old(
                    d,
                ).ctx.outputs[i],
            r.0 is Adding <==> self->Adding_next + 1 < self->Adding_queue.len(),
            r.0 is Adding || r.0 is Publishing,
            r.0 matches ReconcileStage::Adding { connected, queue, next, .. } ==> {
                &&& connected@ == self->Adding_connected@
                &&& queue@ == self->Adding_queue@
                &&& next == self->Adding_next + 1
                &&& final(d).slots.display_off == old(d).slots.display_off
            },
            r.1 matches ReconcileAction::BuildExtra { busy, .. } ==> busy.len()
                == final(d).ctx.outputs.len() && forall|i: int|
                0 <= i < busy.len() ==> #[trigger] busy[i] == final(d).ctx.outputs[i].crtc,
            r.1 matches ReconcileAction::Survey { active, lit } ==> active
                == final(d).ctx.outputs[0].connector && lit@ == lit_list(final(d).ctx.outputs@),
            r.1 is Survey <==> r.0 is Publishing,
            r.1 is BuildExtra <==> r.0 is Adding,
            r.1 is BuildPrimary <==> r.0 is Electing,
            r.0 matches ReconcileStage::Publishing { live, .. } ==> {
                &&& live <==> exists|i: int|
                    0 <= i < final(d).ctx.outputs.len() && (
                    #[trigger] final(d).ctx.outputs[i]).drm_output is Some
                &&& live ==> !final(d).slots.display_off
            },
            r.0 matches ReconcileStage::Adding { connected, queue, next, .. } ==> {
                let c = connected[queue[next as int] as int];
                r.1 matches ReconcileAction::BuildExtra { handle, requested, .. } && handle
                    == c.handle && requested == prefs.mode_for(c.key@)
            },
            final(d).ctx.output_revert == old(d).ctx.output_revert,
            final(d).ctx.vulkan_mode == old(d).ctx.vulkan_mode,
            final(d).slots == (DisplaySlots {
                display_off: final(d).slots.display_off,
                ..old(d).slots
            }),
    {
        let (was_dark, connected, queue, next) = match self {
            ReconcileStage::Adding { was_dark, connected, queue, next } => (
                was_dark,
                connected,
                queue,
                next,
            ),
            _ => (false, Vec::new(), Vec::new(), 0),
        };
        assert(next < queue.len());
        let placed = d.ctx.add_output(output, built);
        let (stage, action) = d.next_addition(was_dark, connected, queue, next + 1, prefs);
        (stage, action, placed)
    }

    /// Ends with the snapshots that were taken; a redraw follows.
    pub fn on_snapshots<P: Platform>(
        self,
        d: &mut Display<P>,
        snap: OutputsSnapshot,
        summary: P::Summary,
    ) -> (r: OutputChange)
        requires
            self@ is Publishing,
        ensures
            r == change(self@->Publishing_was_dark, self@->live),
            self matches ReconcileStage::Publishing { was_dark, live } ==> {
                &&& r == OutputChange::WentDark <==> !live
                &&& r == OutputChange::Recovered <==> live && was_dark
                &&& r == OutputChange::Changed <==> live && !was_dark
            },
            final(d).ctx == old(d).ctx,
            final(d).slots.published(&old(d).slots, snap, summary),
            final(d).slots.outputs_snapshot == snap,
            final(d).slots.display_snapshot == summary,
            forall|i: int|
                0 <= i < snap.displays.len() && (#[trigger] snap.displays[i]).active && (forall|
                    j: int,
                |
                    0 <= j < i ==> !(#[trigger] snap.displays[j]).active) ==> {
                    &&& final(d).slots.modes_snapshot.edid_key@ == snap.displays[i].edid_key@
                    &&& final(d).slots.modes_snapshot.current == snap.displays[i].current
                    &&& final(d).slots.modes_snapshot.available@ == snap.displays[i].available@
                },
            (forall|i: int| 0 <= i < snap.displays.len() ==> !(#[trigger] snap.displays[i]).active)
                ==> final(d).slots.modes_snapshot == old(d).slots.modes_snapshot,
            final(d).slots.display_off == old(d).slots.display_off,
            final(d).slots.switch_request == old(d).slots.switch_request,
            final(d).slots.switch_result == old(d).slots.switch_result,
    {
        d.slots.write_snapshots(snap, summary);
        match self {
            ReconcileStage::Publishing { was_dark, live } => if !live {
                OutputChange::WentDark
            } else if was_dark {
                OutputChange::Recovered
            } else {
                OutputChange::Changed
            },
            _ => OutputChange::Changed,
        }
    }
}

} // verus!
