//! What holds of the output pipes, field by field.
use vstd::prelude::*;

use crate::pipe::{
    any_lit, controllers, edges_fit, lit_list, new_pipe, right_edge, tiled,
    total_width, Built, OutputPipe, Platform, RenderContext,
};

verus! {

/// High dynamic range is signalled exactly where it is wanted, the monitor can do it and the
/// renderer too: on an output that is added and on one that is brought up alike. So it never is
/// on a monitor that cannot do it.
pub proof fn lemma_hdr_needs_the_monitor<P: Platform>(
    pipe: OutputPipe<P>,
    output: P::Output,
    x: i32,
    built: Built<P>,
    vulkan_mode: bool,
)
    ensures
        new_pipe(output, x, built, vulkan_mode).hdr_active <==> built.hdr_wanted
            && built.hdr_capable && vulkan_mode,
        pipe.driving(built, vulkan_mode).hdr_active <==> built.hdr_wanted && built.hdr_capable
            && vulkan_mode,
        !built.hdr_capable ==> !new_pipe(output, x, built, vulkan_mode).hdr_active
            && !pipe.driving(built, vulkan_mode).hdr_active,
        !new_pipe(output, x, built, vulkan_mode).hdr_signalled,
        !pipe.driving(built, vulkan_mode).hdr_signalled,
{
}

/// A pipe drives what was built for it: a new one from nothing, one that is brought up in its
/// place, with its published output and what is pending on it.
pub proof fn lemma_pipe_drives_what_was_built<P: Platform>(
    pipe: OutputPipe<P>,
    output: P::Output,
    x: i32,
    built: Built<P>,
    vulkan_mode: bool,
)
    ensures
        ({
            let p = new_pipe(output, x, built, vulkan_mode);
            &&& p.drm_output == Some(built.drm_output)
            &&& (p.connector, p.crtc) == (built.connector, built.crtc)
            &&& (p.mode, p.current_drm_mode, p.modes) == (built.mode, built.drm_mode, built.modes)
            &&& p.hdr_caps == built.hdr
            &&& p.output == output
            &&& p.x == x
            &&& p.mode_revert is None
            &&& !p.in_flight
        }),
        ({
            let p = pipe.driving(built, vulkan_mode);
            &&& p.drm_output == Some(built.drm_output)
            &&& (p.connector, p.crtc) == (built.connector, built.crtc)
            &&& (p.mode, p.current_drm_mode, p.modes) == (built.mode, built.drm_mode, built.modes)
            &&& p.hdr_caps == built.hdr
            &&& p.output == pipe.output
            &&& p.x == pipe.x
            &&& p.mode_revert == pipe.mode_revert
            &&& p.in_flight == pipe.in_flight
        }),
{
}

/// A pipe that goes dark loses what it scans out, and nothing else; so it stays where it is and
/// can be brought up as it was.
pub proof fn lemma_dark_pipe<P: Platform>(pipe: OutputPipe<P>)
    ensures
        pipe.darkened().drm_output is None,
        pipe == (OutputPipe { drm_output: pipe.drm_output, ..pipe.darkened() }),
        pipe.lit() <==> pipe.drm_output is Some,
        pipe.right() == pipe.x + pipe.mode.width,
{
}

/// One more pipe is one more entry, at the end, exactly if it is driven: its connector with the
/// mode that it is running at, whatever modes it advertises.
pub proof fn lemma_lit_list_grows<P: Platform>(pipes: Seq<OutputPipe<P>>, p: OutputPipe<P>)
    requires
        p.current_drm_mode.vrefresh * 1000 <= u32::MAX,
    ensures
        lit_list(Seq::<OutputPipe<P>>::empty()).len() == 0,
        p.drm_output is None ==> lit_list(pipes.push(p)) == lit_list(pipes),
        p.drm_output is Some ==> ({
            let now = lit_list(pipes.push(p));
            &&& now.len() == lit_list(pipes).len() + 1
            &&& now.drop_last() == lit_list(pipes)
            &&& now.last().0 == p.connector
            &&& now.last().1.width == p.current_drm_mode.width
            &&& now.last().1.height == p.current_drm_mode.height
            &&& now.last().1.refresh_mhz == 1000 * p.current_drm_mode.vrefresh
        }),
{
    assert(pipes.push(p).drop_last() =~= pipes);
    if p.drm_output is Some {
        assert(lit_list(pipes.push(p)).drop_last() =~= lit_list(pipes));
    }
}

/// The modes that are listed do not depend on those that are advertised, nor on anything but
/// what is driven, on which connector and in which mode.
pub proof fn lemma_lit_list_depends<P: Platform>(a: Seq<OutputPipe<P>>, b: Seq<OutputPipe<P>>)
    requires
        a.len() == b.len(),
        forall|i: int|
            0 <= i < a.len() ==> {
                &&& (#[trigger] a[i]).drm_output is Some <==> (#[trigger] b[i]).drm_output is Some
                &&& a[i].connector == b[i].connector
                &&& a[i].current_drm_mode == b[i].current_drm_mode
            },
    ensures
        lit_list(a) == lit_list(b),
    decreases a.len(),
{
    if a.len() > 0 {
        let (p, q) = (a.drop_last(), b.drop_last());
        assert forall|i: int| 0 <= i < p.len() implies {
            &&& (#[trigger] p[i]).drm_output is Some <==> (#[trigger] q[i]).drm_output is Some
            &&& p[i].connector == q[i].connector
            &&& p[i].current_drm_mode == q[i].current_drm_mode
        } by {
            assert(p[i] == a[i] && q[i] == b[i]);
        }
        lemma_lit_list_depends(p, q);
        assert(a[a.len() - 1].connector == b[b.len() - 1].connector);
    }
}

/// Some pipe is driven exactly if one has something to scan out.
pub proof fn lemma_any_lit<P: Platform>(pipes: Seq<OutputPipe<P>>)
    ensures
        any_lit(pipes) <==> exists|i: int|
            0 <= i < pipes.len() && (#[trigger] pipes[i]).drm_output is Some,
{
    if exists|i: int| 0 <= i < pipes.len() && (#[trigger] pipes[i]).drm_output is Some {
        let i = choose|i: int| 0 <= i < pipes.len() && (#[trigger] pipes[i]).drm_output is Some;
        assert(pipes[i].lit());
    }
}

/// The controllers are those of the pipes, one for one.
pub proof fn lemma_controllers<P: Platform>(pipes: Seq<OutputPipe<P>>)
    ensures
        controllers(pipes).len() == pipes.len(),
        forall|i: int| 0 <= i < pipes.len() ==> #[trigger] controllers(pipes)[i] == pipes[i].crtc,
{
}

/// One more output makes the row as much wider as it is, and reaches as far as it does or as the
/// others did, whichever is farther.
pub proof fn lemma_row_grows<P: Platform>(pipes: Seq<OutputPipe<P>>, p: OutputPipe<P>)
    ensures
        total_width(Seq::<OutputPipe<P>>::empty()) == 0,
        total_width(pipes.push(p)) == total_width(pipes) + p.mode.width,
        right_edge(Seq::<OutputPipe<P>>::empty()) == 0,
        right_edge(pipes.push(p)) >= right_edge(pipes),
        right_edge(pipes.push(p)) >= p.x + p.mode.width,
        right_edge(pipes.push(p)) == right_edge(pipes) || right_edge(pipes.push(p)) == p.x
            + p.mode.width,
{
    assert(pipes.push(p).drop_last() =~= pipes);
}

/// Outputs stand side by side from 0 on exactly if the first lies at 0 and each other where the
/// one before it ends.
pub proof fn lemma_tiled<P: Platform>(pipes: Seq<OutputPipe<P>>)
    requires
        forall|i: int| 0 <= i < pipes.len() ==> (#[trigger] pipes[i]).mode.width >= 0,
    ensures
        tiled(pipes) <==> (pipes.len() > 0 ==> pipes[0].x == 0) && forall|i: int, j: int|
            0 <= i && j == i + 1 && j < pipes.len() ==> (#[trigger] pipes[j]).x == (
            #[trigger] pipes[i]).x + pipes[i].mode.width,
{
    let chained = (pipes.len() > 0 ==> pipes[0].x == 0) && forall|i: int, j: int|
        0 <= i && j == i + 1 && j < pipes.len() ==> (#[trigger] pipes[j]).x == (
        #[trigger] pipes[i]).x + pipes[i].mode.width;
    if tiled(pipes) {
        if pipes.len() > 0 {
            assert(pipes[0].x == total_width(pipes.take(0)));
        }
        assert forall|i: int, j: int| 0 <= i && j == i + 1 && j < pipes.len() implies (
        #[trigger] pipes[j]).x == (#[trigger] pipes[i]).x + pipes[i].mode.width by {
            assert(pipes.take(j).drop_last() =~= pipes.take(i));
            assert(pipes.take(j).last() == pipes[i]);
        }
    }
    if chained {
        lemma_chained(pipes, pipes.len() as int);
    }
}

proof fn lemma_chained<P: Platform>(pipes: Seq<OutputPipe<P>>, n: int)
    requires
        0 <= n <= pipes.len(),
        pipes.len() > 0 ==> pipes[0].x == 0,
        forall|i: int, j: int|
            0 <= i && j == i + 1 && j < pipes.len() ==> (#[trigger] pipes[j]).x == (
            #[trigger] pipes[i]).x + pipes[i].mode.width,
    ensures
        forall|i: int| 0 <= i < n ==> (#[trigger] pipes[i]).x == total_width(pipes.take(i)),
    decreases n,
{
    if n > 0 {
        lemma_chained(pipes, n - 1);
        let i = n - 1;
        if i == 0 {
            assert(pipes.take(0) =~= Seq::empty());
        } else {
            assert(pipes[i].x == pipes[i - 1].x + pipes[i - 1].mode.width);
            assert(pipes.take(i).drop_last() =~= pipes.take(i - 1));
            assert(pipes.take(i).last() == pipes[i - 1]);
        }
    }
}

/// What is asked of the outputs and of what was built is no more than this: the anchor is there,
/// every rate can be told in millihertz, every mode is published in its size, and every right
/// edge is a position.
pub proof fn lemma_what_is_asked<P: Platform>(ctx: &RenderContext<P>, built: Built<P>)
    ensures
        ctx.wf() <==> ctx.outputs.len() > 0 && forall|i: int|
            0 <= i < ctx.outputs.len() ==> {
                &&& (#[trigger] ctx.outputs[i]).current_drm_mode.vrefresh * 1000 <= u32::MAX
                &&& ctx.outputs[i].mode.width == ctx.outputs[i].current_drm_mode.width
                &&& ctx.outputs[i].mode.height == ctx.outputs[i].current_drm_mode.height
            },
        built.wf() <==> {
            &&& built.drm_mode.vrefresh * 1000 <= u32::MAX
            &&& built.mode.width == built.drm_mode.width
            &&& built.mode.height == built.drm_mode.height
        },
        edges_fit(ctx.outputs@) <==> forall|i: int|
            0 <= i < ctx.outputs.len() ==> (#[trigger] ctx.outputs[i]).x + ctx.outputs[i].mode.width
                <= i32::MAX,
{
    if edges_fit(ctx.outputs@) {
        assert forall|i: int| 0 <= i < ctx.outputs.len() implies (#[trigger] ctx.outputs[i]).x
            + ctx.outputs[i].mode.width <= i32::MAX by {
            assert(ctx.outputs@[i].right() <= i32::MAX);
        }
    }
    if forall|i: int|
        0 <= i < ctx.outputs.len() ==> {
            &&& (#[trigger] ctx.outputs[i]).current_drm_mode.vrefresh * 1000 <= u32::MAX
            &&& ctx.outputs[i].mode.width == ctx.outputs[i].current_drm_mode.width
            &&& ctx.outputs[i].mode.height == ctx.outputs[i].current_drm_mode.height
        } {
        assert forall|i: int| 0 <= i < ctx.outputs.len() implies (
        #[trigger] ctx.outputs[i]).wf() by {}
    }
    if ctx.wf() {
        assert forall|i: int| 0 <= i < ctx.outputs.len() implies {
            &&& (#[trigger] ctx.outputs[i]).current_drm_mode.vrefresh * 1000 <= u32::MAX
            &&& ctx.outputs[i].mode.width == ctx.outputs[i].current_drm_mode.width
            &&& ctx.outputs[i].mode.height == ctx.outputs[i].current_drm_mode.height
        } by {
            assert(ctx.outputs[i].wf());
        }
    }
}

/// Contexts that differ in their pipes only agree in all else.
pub proof fn lemma_only_pipes_differ<P: Platform>(a: &RenderContext<P>, b: &RenderContext<P>)
    ensures
        a.same_but_outputs(b) <==> a.output_revert == b.output_revert && a.vulkan_mode
            == b.vulkan_mode,
{
}

} // verus!
