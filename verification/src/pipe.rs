//! The output pipes that are driven, and what the rest of the compositor sees of them.
use vstd::prelude::*;

use crate::output::{mode_info, DrmMode, ModeInfo};

verus! {

/// The handles of the surrounding program that a pipe carries.
pub trait Platform {
    /// A published output with its damage tracker.
    type Output;

    /// What scans out to a connector; dropping it frees the controller.
    type Scanout;

    /// What a monitor can do beyond the standard range.
    type HdrCaps;

    /// A pending mode change that can be taken back.
    type ModeRevert;

    /// An armed timer.
    type Timer;

    /// The lid and display summary.
    type Summary;
}

/// An output mode as it is published.
#[derive(Clone, Copy, PartialEq, Eq, Structural, Debug)]
pub struct OutputMode {
    pub width: i32,
    pub height: i32,
    /// Refresh rate in millihertz.
    pub refresh: i32,
}

/// One output: the connector it drives, on which controller, in which mode.
pub struct OutputPipe<P: Platform> {
    pub crtc: u32,
    /// Where the left edge lies, in the row of all outputs.
    pub x: i32,
    pub mode: OutputMode,
    pub output: P::Output,
    /// `None` while the pipe is dark.
    pub drm_output: Option<P::Scanout>,
    pub hdr_caps: P::HdrCaps,
    pub hdr_active: bool,
    pub hdr_signalled: bool,
    pub connector: u32,
    pub current_drm_mode: DrmMode,
    pub modes: Vec<DrmMode>,
    pub mode_revert: Option<P::ModeRevert>,
    pub in_flight: bool,
}

/// What the builder made of a connector.
pub struct Built<P: Platform> {
    pub drm_output: P::Scanout,
    pub drm_mode: DrmMode,
    /// `drm_mode` as it is published.
    pub mode: OutputMode,
    pub modes: Vec<DrmMode>,
    pub connector: u32,
    pub crtc: u32,
    pub hdr: P::HdrCaps,
    pub hdr_capable: bool,
    /// Whether the environment asks for it.
    pub hdr_wanted: bool,
}

/// What a provisional switch is taken back to.
pub struct OutputSwitchBaseline<P: Platform> {
    pub connector_name: String,
    pub mode: ModeInfo,
    pub timer: P::Timer,
}

/// The driven outputs. The first is the primary: the always-present anchor, kept even when no
/// monitor is connected.
pub struct RenderContext<P: Platform> {
    pub outputs: Vec<OutputPipe<P>>,
    /// The provisional switch that is pending, if any.
    pub output_revert: Option<OutputSwitchBaseline<P>>,
    pub vulkan_mode: bool,
}

impl<P: Platform> OutputPipe<P> {
    /// The pipe gone dark.
    pub open spec fn darkened(self) -> OutputPipe<P> {
        OutputPipe { drm_output: None, ..self }
    }

    /// The pipe driving what was built, where it lies.
    pub open spec fn driving(self, built: Built<P>, vulkan_mode: bool) -> OutputPipe<P> {
        OutputPipe {
            crtc: built.crtc,
            drm_output: Some(built.drm_output),
            mode: built.mode,
            current_drm_mode: built.drm_mode,
            modes: built.modes,
            connector: built.connector,
            hdr_caps: built.hdr,
            hdr_active: built.hdr_wanted && built.hdr_capable && vulkan_mode,
            hdr_signalled: false,
            ..self
        }
    }

    /// Whether the pipe is driven.
    pub open spec fn lit(self) -> bool {
        self.drm_output is Some
    }

    /// Where the right edge lies.
    pub open spec fn right(self) -> int {
        self.x + self.mode.width
    }

    /// Whether the mode can be shown, and is published in its size.
    pub open spec fn wf(self) -> bool {
        &&& self.current_drm_mode.fits()
        &&& self.mode.shows(self.current_drm_mode)
    }

    /// Whether the two pipes have no column in common.
    pub open spec fn apart_from(self, other: OutputPipe<P>) -> bool {
        self.right() <= other.x || other.right() <= self.x
    }
}

impl OutputMode {
    /// Whether this is `m` as it is published: in its size.
    pub open spec fn shows(self, m: DrmMode) -> bool {
        self.width == m.width && self.height == m.height
    }
}

impl<P: Platform> Built<P> {
    /// Whether the mode can be shown, and is published in its size.
    pub open spec fn wf(self) -> bool {
        &&& self.drm_mode.fits()
        &&& self.mode.shows(self.drm_mode)
    }
}

/// A new pipe at `x` driving what was built.
pub open spec fn new_pipe<P: Platform>(
    output: P::Output,
    x: i32,
    built: Built<P>,
    vulkan_mode: bool,
) -> OutputPipe<P> {
    OutputPipe {
        crtc: built.crtc,
        x,
        mode: built.mode,
        output,
        drm_output: Some(built.drm_output),
        hdr_caps: built.hdr,
        hdr_active: built.hdr_wanted && built.hdr_capable && vulkan_mode,
        hdr_signalled: false,
        connector: built.connector,
        current_drm_mode: built.drm_mode,
        modes: built.modes,
        mode_revert: None,
        in_flight: false,
    }
}

/// How wide the outputs are side by side.
pub open spec fn total_width<P: Platform>(pipes: Seq<OutputPipe<P>>) -> int
    decreases pipes.len(),
{
    if pipes.len() == 0 {
        0
    } else {
        total_width(pipes.drop_last()) + pipes.last().mode.width
    }
}

/// How far to the right the outputs reach.
pub open spec fn right_edge<P: Platform>(pipes: Seq<OutputPipe<P>>) -> int
    decreases pipes.len(),
{
    if pipes.len() == 0 {
        0
    } else {
        let before = right_edge(pipes.drop_last());
        if pipes.last().right() > before {
            pipes.last().right()
        } else {
            before
        }
    }
}

/// Whether every right edge is within what a position can be.
pub open spec fn edges_fit<P: Platform>(pipes: Seq<OutputPipe<P>>) -> bool {
    forall|i: int| 0 <= i < pipes.len() ==> (#[trigger] pipes[i]).right() <= i32::MAX
}

/// Whether the outputs stand side by side from 0 on, without a gap.
pub open spec fn tiled<P: Platform>(pipes: Seq<OutputPipe<P>>) -> bool {
    forall|i: int|
        0 <= i < pipes.len() ==> (#[trigger] pipes[i]).x == total_width(pipes.take(i))
            && pipes[i].mode.width >= 0
}

/// No output reaches farther than the right edge; and outputs that stand side by side from 0 on
/// reach as far as they are wide together.
pub proof fn lemma_right_edge<P: Platform>(pipes: Seq<OutputPipe<P>>)
    ensures
        right_edge(pipes) >= 0,
        forall|i: int| 0 <= i < pipes.len() ==> (#[trigger] pipes[i]).right() <= right_edge(pipes),
        forall|i: int|
            0 <= i < pipes.len() ==> (#[trigger] pipes[i]).x + pipes[i].mode.width <= right_edge(
                pipes,
            ),
        edges_fit(pipes) ==> right_edge(pipes) <= i32::MAX,
        tiled(pipes) ==> right_edge(pipes) == total_width(pipes),
    decreases pipes.len(),
{
    if pipes.len() > 0 {
        let init = pipes.drop_last();
        lemma_right_edge(init);
        assert forall|i: int| 0 <= i < pipes.len() implies (#[trigger] pipes[i]).right()
            <= right_edge(pipes) by {
            if i < init.len() {
                assert(pipes[i] == init[i]);
            }
        }
        if edges_fit(pipes) {
            assert forall|i: int| 0 <= i < init.len() implies (#[trigger] init[i]).right()
                <= i32::MAX by {
                assert(init[i] == pipes[i]);
            }
            assert(pipes.last() == pipes[pipes.len() - 1]);
        }
        if tiled(pipes) {
            assert forall|i: int| 0 <= i < init.len() implies (#[trigger] init[i]).x
                == total_width(init.take(i)) && init[i].mode.width >= 0 by {
                assert(init[i] == pipes[i]);
                assert(init.take(i) =~= pipes.take(i));
            }
            assert(pipes.last() == pipes[pipes.len() - 1]);
            assert(pipes.take(pipes.len() - 1) =~= init);
        }
    }
}

/// The right edge is that of an output, or 0.
pub proof fn lemma_right_edge_reached<P: Platform>(pipes: Seq<OutputPipe<P>>)
    ensures
        right_edge(pipes) == 0 || exists|i: int|
            0 <= i < pipes.len() && right_edge(pipes) == (#[trigger] pipes[i]).x
                + pipes[i].mode.width,
    decreases pipes.len(),
{
    if pipes.len() > 0 {
        let init = pipes.drop_last();
        lemma_right_edge_reached(init);
        if right_edge(pipes) == pipes.last().x + pipes.last().mode.width {
            assert(pipes[pipes.len() - 1] == pipes.last());
        } else if right_edge(init) != 0 {
            let i = choose|i: int|
                0 <= i < init.len() && right_edge(init) == (#[trigger] init[i]).x
                    + init[i].mode.width;
            assert(pipes[i] == init[i]);
        }
    }
}

/// The controllers of the pipes, in order.
pub open spec fn controllers<P: Platform>(pipes: Seq<OutputPipe<P>>) -> Seq<u32> {
    pipes.map_values(|p: OutputPipe<P>| p.crtc)
}

/// The current mode of every driven pipe, by connector.
pub open spec fn lit_list<P: Platform>(pipes: Seq<OutputPipe<P>>) -> Seq<(u32, ModeInfo)>
    decreases pipes.len(),
{
    if pipes.len() == 0 {
        Seq::empty()
    } else if pipes.last().lit() {
        lit_list(pipes.drop_last()).push(
            (pipes.last().connector, pipes.last().current_drm_mode.info()),
        )
    } else {
        lit_list(pipes.drop_last())
    }
}

/// Each listed mode is the one that a driven pipe is running at, and each driven pipe is listed,
/// in the order of the pipes; where the pipes stand that are listed is given.
pub proof fn lemma_lit_list<P: Platform>(pipes: Seq<OutputPipe<P>>) -> (at: Seq<int>)
    requires
        forall|i: int|
            0 <= i < pipes.len() ==> (#[trigger] pipes[i]).current_drm_mode.vrefresh * 1000
                <= u32::MAX,
    ensures
        at.len() == lit_list(pipes).len(),
        forall|k: int|
            0 <= k < at.len() ==> 0 <= #[trigger] at[k] < pipes.len()
                && pipes[at[k]].drm_output is Some && lit_list(pipes)[k].0
                == pipes[at[k]].connector && lit_list(pipes)[k].1.width
                == pipes[at[k]].current_drm_mode.width && lit_list(pipes)[k].1.height
                == pipes[at[k]].current_drm_mode.height && lit_list(pipes)[k].1.refresh_mhz == 1000
                * pipes[at[k]].current_drm_mode.vrefresh,
        forall|k: int, l: int| 0 <= k < l < at.len() ==> #[trigger] at[k] < #[trigger] at[l],
        forall|i: int|
            0 <= i < pipes.len() && (#[trigger] pipes[i]).drm_output is Some ==> at.contains(i),
    decreases pipes.len(),
{
    if pipes.len() == 0 {
        Seq::empty()
    } else {
        let init = pipes.drop_last();
        assert forall|i: int| 0 <= i < init.len() implies (
        #[trigger] init[i]).current_drm_mode.vrefresh * 1000 <= u32::MAX by {
            assert(init[i] == pipes[i]);
        }
        let before = lemma_lit_list(init);
        let last = pipes[pipes.len() - 1];
        assert(last.current_drm_mode.vrefresh * 1000 <= u32::MAX);
        let at = if last.drm_output is Some {
            before.push(pipes.len() - 1)
        } else {
            before
        };
        assert forall|i: int|
            0 <= i < pipes.len() && (#[trigger] pipes[i]).drm_output is Some implies at.contains(
            i,
        ) by {
            if i < init.len() {
                assert(init[i] == pipes[i]);
                let k = choose|k: int| 0 <= k < before.len() && before[k] == i;
                assert(at[k] == i);
            } else {
                assert(at[before.len() as int] == i);
            }
        }
        assert forall|k: int| 0 <= k < at.len() implies 0 <= #[trigger] at[k] < pipes.len()
            && pipes[at[k]].drm_output is Some && lit_list(pipes)[k].0 == pipes[at[k]].connector
            && lit_list(pipes)[k].1.width == pipes[at[k]].current_drm_mode.width && lit_list(
            pipes,
        )[k].1.height == pipes[at[k]].current_drm_mode.height && lit_list(pipes)[k].1.refresh_mhz
            == 1000 * pipes[at[k]].current_drm_mode.vrefresh by {
            if k < before.len() {
                assert(at[k] == before[k]);
                assert(init[before[k]] == pipes[before[k]]);
                assert(lit_list(pipes)[k] == lit_list(init)[k]);
            }
        }
        at
    }
}

/// Whether some pipe is driven.
pub open spec fn any_lit<P: Platform>(pipes: Seq<OutputPipe<P>>) -> bool {
    exists|i: int| 0 <= i < pipes.len() && (#[trigger] pipes[i]).lit()
}

impl<P: Platform> RenderContext<P> {
    /// The anchor is there, and every mode can be shown and is published in its size.
    pub open spec fn wf(&self) -> bool {
        &&& self.outputs.len() > 0
        &&& forall|i: int| 0 <= i < self.outputs.len() ==> (#[trigger] self.outputs[i]).wf()
    }

    /// Whether everything but the pipes is the same.
    pub open spec fn same_but_outputs(&self, other: &Self) -> bool {
        &&& self.output_revert == other.output_revert
        &&& self.vulkan_mode == other.vulkan_mode
    }

    /// Darkens the primary, which frees its controller.
    pub fn tear_down(&mut self)
        requires
            old(self).wf(),
        ensures
            final(self).wf(),
            final(self).outputs@ == old(self).outputs@.update(0, old(self).outputs[0].darkened()),
            final(self).same_but_outputs(old(self)),
            final(self).outputs[0] == (OutputPipe { drm_output: None, ..old(self).outputs[0] }),
            final(self).outputs.len() == old(self).outputs.len(),
            forall|i: int|
                1 <= i < old(self).outputs.len() ==> #[trigger] final(self).outputs[i] == old(
                    self,
                ).outputs[i],
            final(self).output_revert == old(self).output_revert,
            final(self).vulkan_mode == old(self).vulkan_mode,
    {
        self.outputs[0].drm_output = None;
    }

    /// Brings up what was built as the primary, or leaves the primary dark if nothing was.
    pub fn bring_up(&mut self, built: Result<Built<P>, String>) -> (r: Result<(), String>)
        requires
            old(self).wf(),
            built matches Ok(b) ==> b.wf(),
        ensures
            final(self).wf(),
            match built {
                Ok(b) => r is Ok && final(self).outputs@ == old(self).outputs@.update(
                    0,
                    old(self).outputs[0].driving(b, old(self).vulkan_mode),
                ),
                Err(e) => r == Err::<(), String>(e) && final(self).outputs@
                    == old(self).outputs@.update(0, old(self).outputs[0].darkened()),
            },
            final(self).same_but_outputs(old(self)),
            built matches Ok(b) ==> ({
                let p = final(self).outputs[0];
                let was = old(self).outputs[0];
                &&& p.drm_output == Some(b.drm_output)
                &&& p.crtc == b.crtc
                &&& p.connector == b.connector
                &&& p.mode == b.mode
                &&& p.current_drm_mode == b.drm_mode
                &&& p.modes == b.modes
                &&& p.hdr_caps == b.hdr
                &&& p.hdr_active <==> b.hdr_wanted && b.hdr_capable && old(self).vulkan_mode
                &&& !p.hdr_signalled
                &&& p.x == was.x
                &&& p.output == was.output
                &&& p.mode_revert == was.mode_revert
                &&& p.in_flight == was.in_flight
            }),
            built is Err ==> final(self).outputs[0] == (OutputPipe {
                drm_output: None,
                ..old(self).outputs[0]
            }),
            final(self).outputs.len() == old(self).outputs.len(),
            forall|i: int|
                1 <= i < old(self).outputs.len() ==> #[trigger] final(self).outputs[i] == old(
                    self,
                ).outputs[i],
            final(self).output_revert == old(self).output_revert,
            final(self).vulkan_mode == old(self).vulkan_mode,
    {
        self.tear_down();
        match built {
            Ok(b) => {
                let hdr_active = b.hdr_wanted && b.hdr_capable && self.vulkan_mode;
                let pipe = &mut self.outputs[0];
                pipe.crtc = b.crtc;
                pipe.drm_output = Some(b.drm_output);
                pipe.mode = b.mode;
                pipe.current_drm_mode = b.drm_mode;
                pipe.modes = b.modes;
                pipe.connector = b.connector;
                pipe.hdr_caps = b.hdr;
                pipe.hdr_active = hdr_active;
                pipe.hdr_signalled = false;
                Ok(())
            },
            Err(e) => Err(e),
        }
    }

    /// The controllers of the pipes, those of dark ones too.
    pub fn busy(&self) -> (r: Vec<u32>)
        ensures
            r@ == controllers(self.outputs@),
            r.len() == self.outputs.len(),
            forall|i: int| 0 <= i < r.len() ==> #[trigger] r[i] == self.outputs[i].crtc,
    {
        let mut busy: Vec<u32> = Vec::new();
        let mut i: usize = 0;
        while i < self.outputs.len()
            invariant
                i <= self.outputs.len(),
                busy.len() == i,
                forall|j: int| 0 <= j < i ==> #[trigger] busy[j] == self.outputs[j].crtc,
            decreases self.outputs.len() - i,
        {
            busy.push(self.outputs[i].crtc);
            i = i + 1;
        }
        assert(busy@ =~= controllers(self.outputs@));
        busy
    }

    /// Brings what was built online as an ADDITIONAL output, to the right of all existing ones,
    /// and says where it lies; if nothing was built, nothing changes.
    pub fn add_output(&mut self, output: P::Output, built: Result<Built<P>, String>) -> (r: Result<
        i32,
        String,
    >)
        requires
            old(self).wf(),
            built matches Ok(b) ==> b.wf() && edges_fit(old(self).outputs@),
        ensures
            final(self).wf(),
            match built {
                Ok(b) => r matches Ok(x) && x == right_edge(old(self).outputs@)
                    && final(self).outputs@ == old(self).outputs@.push(
                    new_pipe(output, x, b, old(self).vulkan_mode),
                ),
                Err(e) => r == Err::<i32, String>(e) && final(self).outputs == old(self).outputs,
            },
            r matches Ok(x) ==> (forall|i: int|
                0 <= i < old(self).outputs.len() ==> x >= (#[trigger] old(self).outputs[i]).x
                    + old(self).outputs[i].mode.width),
            r matches Ok(x) ==> (tiled(old(self).outputs@) ==> x == total_width(
                old(self).outputs@,
            )),
            r matches Ok(x) ==> x == 0 || exists|i: int|
                0 <= i < old(self).outputs.len() && x == (#[trigger] old(self).outputs[i]).x
                    + old(self).outputs[i].mode.width,
            r matches Ok(x) ==> x >= 0,
            final(self).same_but_outputs(old(self)),
            built matches Ok(b) ==> ({
                let p = final(self).outputs[old(self).outputs.len() as int];
                &&& final(self).outputs.len() == old(self).outputs.len() + 1
                &&& r == Ok::<i32, String>(p.x)
                &&& p.drm_output == Some(b.drm_output)
                &&& p.crtc == b.crtc
                &&& p.connector == b.connector
                &&& p.mode == b.mode
                &&& p.current_drm_mode == b.drm_mode
                &&& p.modes == b.modes
                &&& p.hdr_caps == b.hdr
                &&& p.hdr_active <==> b.hdr_wanted && b.hdr_capable && old(self).vulkan_mode
                &&& !p.hdr_signalled
                &&& p.output == output
                &&& p.mode_revert is None
                &&& !p.in_flight
            }),
            forall|i: int|
                0 <= i < old(self).outputs.len() ==> #[trigger] final(self).outputs[i] == old(
                    self,
                ).outputs[i],
            final(self).output_revert == old(self).output_revert,
            final(self).vulkan_mode == old(self).vulkan_mode,
    {
        match built {
            Ok(b) => {
                let mut x: i32 = 0;
                let mut i: usize = 0;
                proof {
                    lemma_right_edge(self.outputs@);
                    assert(self.outputs@.take(0) =~= Seq::empty());
                }
                while i < self.outputs.len()
                    invariant
                        self.wf(),
                        i <= self.outputs.len(),
                        edges_fit(self.outputs@),
                        x == right_edge(self.outputs@.take(i as int)),
                        x >= 0,
                    decreases self.outputs.len() - i,
                {
                    proof {
                        let next = self.outputs@.take(i + 1);
                        assert(next.drop_last() =~= self.outputs@.take(i as int));
                        assert(self.outputs[i as int].right() <= i32::MAX);
                    }
                    let p = &self.outputs[i];
                    let right: i32 = p.x + p.mode.width;
                    if right > x {
                        x = right;
                    }
                    i = i + 1;
                }
                assert(self.outputs@.take(self.outputs.len() as int) =~= self.outputs@);
                proof {
                    lemma_right_edge_reached(self.outputs@);
                }
                assert forall|j: int| 0 <= j < self.outputs.len() implies x >= (
                #[trigger] self.outputs[j]).x + self.outputs[j].mode.width by {
                    assert(self.outputs@[j].right() <= right_edge(self.outputs@));
                }
                let hdr_active = b.hdr_wanted && b.hdr_capable && self.vulkan_mode;
                self.outputs.push(
                    OutputPipe {
                        crtc: b.crtc,
                        x,
                        mode: b.mode,
                        output,
                        drm_output: Some(b.drm_output),
                        hdr_caps: b.hdr,
                        hdr_active,
                        hdr_signalled: false,
                        connector: b.connector,
                        current_drm_mode: b.drm_mode,
                        modes: b.modes,
                        mode_revert: None,
                        in_flight: false,
                    },
                );
                Ok(x)
            },
            Err(e) => Err(e),
        }
    }

    /// Whether some pipe is driven.
    pub fn any_live(&self) -> (r: bool)
        ensures
            r == any_lit(self.outputs@),
            r <==> exists|i: int|
                0 <= i < self.outputs.len() && (#[trigger] self.outputs[i]).drm_output is Some,
    {
        let mut i: usize = 0;
        while i < self.outputs.len()
            invariant
                i <= self.outputs.len(),
                forall|j: int| 0 <= j < i ==> !(#[trigger] self.outputs[j]).lit(),
            decreases self.outputs.len() - i,
        {
            if self.outputs[i].drm_output.is_some() {
                assert(self.outputs[i as int].lit());
                return true;
            }
            i = i + 1;
        }
        false
    }

    /// The current mode of every DRIVEN pipe, so that each connected monitor can be reported
    /// with its own.
    pub fn lit_modes(&self) -> (r: Vec<(u32, ModeInfo)>)
        requires
            self.wf(),
        ensures
            r@ == lit_list(self.outputs@),
            exists|at: Seq<int>|
                #[trigger] at.len() == r.len() && (forall|k: int|
                    0 <= k < r.len() ==> 0 <= #[trigger] at[k] < self.outputs.len()
                        && self.outputs[at[k]].drm_output is Some && r[k].0
                        == self.outputs[at[k]].connector && r[k].1.width
                        == self.outputs[at[k]].current_drm_mode.width && r[k].1.height
                        == self.outputs[at[k]].current_drm_mode.height && r[k].1.refresh_mhz == 1000
                        * self.outputs[at[k]].current_drm_mode.vrefresh) && (forall|k: int, l: int|
                    0 <= k < l < r.len() ==> #[trigger] at[k] < #[trigger] at[l]) && (forall|i: int|
                    0 <= i < self.outputs.len() && (#[trigger] self.outputs[i]).drm_output is Some
                        ==> at.contains(i)),
    {
        let mut lit: Vec<(u32, ModeInfo)> = Vec::new();
        let mut i: usize = 0;
        assert(self.outputs@.take(0) =~= Seq::empty());
        while i < self.outputs.len()
            invariant
                self.wf(),
                i <= self.outputs.len(),
                lit@ == lit_list(self.outputs@.take(i as int)),
            decreases self.outputs.len() - i,
        {
            assert(self.outputs@.take(i + 1).drop_last() =~= self.outputs@.take(i as int));
            let p = &self.outputs[i];
            if p.drm_output.is_some() {
                lit.push((p.connector, mode_info(p.current_drm_mode)));
            }
            i = i + 1;
        }
        assert(self.outputs@.take(self.outputs.len() as int) =~= self.outputs@);
        let ghost at = lemma_lit_list(self.outputs@);
        assert(at.len() == lit.len());
        lit
    }
}

} // verus!
