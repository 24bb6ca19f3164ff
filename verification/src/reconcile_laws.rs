//! What holds of a reconciliation from its scan to its end.
use vstd::prelude::*;

use crate::display::Display;
use crate::output::{lemma_first_where, is_monitor, picked, Connector, Preferences};
use crate::output_laws::lemma_picked;
use crate::pipe::{
    any_lit, edges_fit, lemma_right_edge, new_pipe, right_edge, tiled, total_width, Built,
    OutputPipe, Platform,
};
use crate::pipe_laws::lemma_any_lit;
use crate::reconcile::{
    begin_adding, change, drives, go_on, lemma_plugged, lists, negation, plugged, step_added,
    step_connectors, step_primary,
    still_there, undriven, ReconcileAction, ReconcileModel, ReconcileStage, ReconcileState,
    ReconcileWork,
};

verus! {

/// What holds between the decisions: the anchor is there; while the primary is dark and
/// settled, the render loop idles; at the end it idles exactly if nothing is driven.
pub open spec fn idles_when_dark<P: Platform>(m: ReconcileModel, s: ReconcileState<P>) -> bool {
    &&& s.pipes.len() > 0
    &&& match m {
        ReconcileModel::Scanning { .. } => true,
        ReconcileModel::Electing { .. } => !s.pipes[0].lit(),
        ReconcileModel::Adding { .. } => !s.pipes[0].lit() ==> s.display_off,
        ReconcileModel::Publishing { live, .. } => live == any_lit(s.pipes) && s.display_off
            == !live,
    }
}

proof fn lemma_go_on_idles<P: Platform>(
    was_dark: bool,
    connected: Seq<Connector>,
    queue: Seq<usize>,
    next: nat,
    s: ReconcileState<P>,
    prefs: Preferences,
)
    requires
        s.pipes.len() > 0,
        !s.pipes[0].lit() ==> s.display_off,
    ensures
        ({
            let r = go_on(was_dark, connected, queue, next, s, prefs);
            idles_when_dark(r.0, r.1)
        }),
{
    if s.pipes[0].lit() {
        assert(any_lit(s.pipes));
    }
}

/// However the scan and the builds come out, a reconciliation ends with the render loop idling
/// exactly if no output is driven, and keeps the primary's place as the first of the outputs.
pub proof fn lemma_reconcile_idles<P: Platform>(
    was_dark: bool,
    s: ReconcileState<P>,
    connectors: Seq<Connector>,
    prefs: Preferences,
    connected: Seq<Connector>,
    queue: Seq<usize>,
    next: nat,
    output: P::Output,
    built: Option<Built<P>>,
)
    requires
        s.pipes.len() > 0,
    ensures
        ({
            let r = step_connectors(was_dark, s, connectors, prefs);
            idles_when_dark(r.0, r.1) && r.1.pipes[0].output == s.pipes[0].output
        }),
        idles_when_dark(ReconcileModel::Electing { was_dark, connected }, s) ==> ({
            let r = step_primary(was_dark, connected, s, built, prefs);
            idles_when_dark(r.0, r.1) && r.1.pipes[0].output == s.pipes[0].output
        }),
        idles_when_dark(ReconcileModel::Adding { was_dark, connected, queue, next }, s) ==> ({
            let r = step_added(was_dark, connected, queue, next, s, output, built, prefs);
            idles_when_dark(r.0, r.1) && r.1.pipes[0] == s.pipes[0]
        }),
{
    let plugged_in = connectors.filter(plugged());
    let pipes = s.pipes.take(1) + s.pipes.skip(1).filter(still_there(plugged_in));
    let pruned = ReconcileState { pipes, ..s };
    assert(pipes[0] == s.pipes[0]);
    let all = undriven(pipes, plugged_in, plugged_in.len() as int);
    if pipes[0].lit() {
        lemma_go_on_idles(was_dark, plugged_in, all, 0, pruned, prefs);
    }
    let dark = pruned.primary_dark();
    lemma_go_on_idles(
        was_dark,
        plugged_in,
        undriven(dark.pipes, plugged_in, plugged_in.len() as int),
        0,
        dark,
        prefs,
    );
    let settled = match built {
        Some(b) => ReconcileState {
            pipes: s.pipes.update(0, s.pipes[0].driving(b, s.vulkan_mode)),
            display_off: false,
            ..s
        },
        None => s.primary_dark(),
    };
    lemma_go_on_idles(
        was_dark,
        connected,
        undriven(settled.pipes, connected, connected.len() as int),
        0,
        settled,
        prefs,
    );
    if !s.pipes[0].lit() ==> s.display_off {
        let now = match built {
            Some(b) => ReconcileState {
                pipes: s.pipes.push(new_pipe(output, right_edge(s.pipes) as i32, b, s.vulkan_mode)),
                ..s
            },
            None => s,
        };
        assert(now.pipes[0] == s.pipes[0]);
        lemma_go_on_idles(was_dark, connected, queue, next + 1, now, prefs);
    }
}

proof fn lemma_undriven<P: Platform>(pipes: Seq<OutputPipe<P>>, connected: Seq<Connector>, n: int)
    requires
        0 <= n <= connected.len(),
        connected.len() <= usize::MAX,
    ensures
        forall|i: int|
            0 <= i < n ==> drives(pipes, (#[trigger] connected[i]).handle) || undriven(
                pipes,
                connected,
                n,
            ).contains(i as usize),
        forall|j: int|
            0 <= j < undriven(pipes, connected, n).len() ==> (#[trigger] undriven(
                pipes,
                connected,
                n,
            )[j]) < n && !drives(pipes, connected[undriven(pipes, connected, n)[j] as int].handle),
    decreases n,
{
    if n > 0 {
        lemma_undriven(pipes, connected, n - 1);
        let before = undriven(pipes, connected, n - 1);
        let now = undriven(pipes, connected, n);
        assert forall|i: int| 0 <= i < n implies drives(pipes, (#[trigger] connected[i]).handle)
            || now.contains(i as usize) by {
            if i == n - 1 {
                if !drives(pipes, connected[i].handle) {
                    assert(now[now.len() - 1] == i as usize);
                }
            } else if !drives(pipes, connected[i].handle) {
                let k = choose|k: int| 0 <= k < before.len() && before[k] == i as usize;
                assert(now[k] == i as usize);
            }
        }
        assert forall|j: int| 0 <= j < now.len() implies (#[trigger] now[j]) < n && !drives(
            pipes,
            connected[now[j] as int].handle,
        ) by {
            if j < before.len() {
                assert(now[j] == before[j]);
            }
        }
    }
}

/// Whether every connected monitor is driven, still to be, or one that could not be, and only
/// connected ones are driven.
pub open spec fn converging<P: Platform>(
    connected: Seq<Connector>,
    failed: Set<u32>,
    m: ReconcileModel,
    s: ReconcileState<P>,
) -> bool {
    let sound = forall|i: int|
        0 <= i < s.pipes.len() && (#[trigger] s.pipes[i]).lit() ==> lists(
            connected,
            s.pipes[i].connector,
        );
    match m {
        ReconcileModel::Electing { connected: c, .. } => c == connected && sound
            && s.pipes.len() > 0 && !s.pipes[0].lit(),
        ReconcileModel::Adding { connected: c, queue, next, .. } => c == connected && sound
            && m.wf() && s.pipes.len() > 0 && forall|i: int|
            0 <= i < connected.len() ==> drives(s.pipes, (#[trigger] connected[i]).handle)
                || queued(queue, next, i) || failed.contains(connected[i].handle),
        ReconcileModel::Publishing { .. } => sound && forall|i: int|
            0 <= i < connected.len() ==> drives(s.pipes, (#[trigger] connected[i]).handle)
                || failed.contains(connected[i].handle),
        ReconcileModel::Scanning { .. } => false,
    }
}

/// Whether position `i` is still in the queue.
pub open spec fn queued(queue: Seq<usize>, next: nat, i: int) -> bool {
    exists|j: int| next <= j < queue.len() && #[trigger] queue[j] == i
}

proof fn lemma_begin_adding_converges<P: Platform>(
    was_dark: bool,
    connected: Seq<Connector>,
    s: ReconcileState<P>,
    prefs: Preferences,
)
    requires
        connected.len() <= usize::MAX,
        s.pipes.len() > 0,
        forall|i: int|
            0 <= i < s.pipes.len() && (#[trigger] s.pipes[i]).lit() ==> lists(
                connected,
                s.pipes[i].connector,
            ),
    ensures
        ({
            let r = begin_adding(was_dark, connected, s, prefs);
            converging(connected, Set::empty(), r.0, r.1)
        }),
{
    let n = connected.len() as int;
    lemma_undriven(s.pipes, connected, n);
    let queue = undriven(s.pipes, connected, n);
    assert forall|i: int| 0 <= i < n implies drives(s.pipes, (#[trigger] connected[i]).handle)
        || queued(queue, 0, i) by {
        if !drives(s.pipes, connected[i].handle) {
            assert(queue.contains(i as usize));
            let j = choose|j: int| 0 <= j < queue.len() && queue[j] == i as usize;
            assert(queue[j] == i);
        }
    }
}

/// The handle that is asked for.
pub open spec fn asked(a: ReconcileWork) -> Option<u32> {
    match a {
        ReconcileWork::BuildPrimary { handle, .. } => Some(handle),
        ReconcileWork::BuildExtra { handle, .. } => Some(handle),
        ReconcileWork::Survey => None,
    }
}

proof fn lemma_connectors_converge<P: Platform>(
    was_dark: bool,
    s: ReconcileState<P>,
    connectors: Seq<Connector>,
    prefs: Preferences,
)
    requires
        connectors.len() <= usize::MAX,
        s.pipes.len() > 0,
    ensures
        ({
            let r = step_connectors(was_dark, s, connectors, prefs);
            let connected = connectors.filter(plugged());
            &&& converging(connected, Set::empty(), r.0, r.1)
            &&& r.0 is Electing ==> (asked(r.2) matches Some(handle) && lists(connected, handle))
        }),
{
    let connected = connectors.filter(plugged());
    connectors.lemma_filter_len(plugged());
    let there = still_there::<P>(connected);
    let rest = s.pipes.skip(1).filter(there);
    let pipes = s.pipes.take(1) + rest;
    let pruned = ReconcileState { pipes, ..s };
    assert forall|i: int| 1 <= i < pipes.len() implies lists(
        connected,
        (#[trigger] pipes[i]).connector,
    ) by {
        s.pipes.skip(1).lemma_filter_pred(there, i - 1);
        assert(pipes[i] == rest[i - 1]);
    }
    assert(pipes[0] == s.pipes[0]);
    if pipes[0].lit() && lists(connected, pipes[0].connector) {
        lemma_begin_adding_converges(was_dark, connected, pruned, prefs);
    } else {
        match picked(connected, prefs.preferred()) {
            Some(k) => {
                if prefs.preferred() is Some {
                    lemma_first_where(connected, is_monitor(prefs.preferred().unwrap()));
                }
                assert(connected[k].handle == connected[k].handle);
                assert(lists(connected, connected[k].handle));
            },
            None => {
                lemma_begin_adding_converges(was_dark, connected, pruned.primary_dark(), prefs);
            },
        }
    }
}

proof fn lemma_primary_converges<P: Platform>(
    was_dark: bool,
    connected: Seq<Connector>,
    s: ReconcileState<P>,
    built: Option<Built<P>>,
    prefs: Preferences,
)
    requires
        connected.len() <= usize::MAX,
        converging(
            connected,
            Set::empty(),
            ReconcileModel::Electing { was_dark, connected },
            s,
        ),
        built matches Some(b) ==> lists(connected, b.connector),
    ensures
        ({
            let r = step_primary(was_dark, connected, s, built, prefs);
            converging(connected, Set::empty(), r.0, r.1)
        }),
{
    let settled = match built {
        Some(b) => ReconcileState {
            pipes: s.pipes.update(0, s.pipes[0].driving(b, s.vulkan_mode)),
            display_off: false,
            ..s
        },
        None => s.primary_dark(),
    };
    assert forall|i: int|
        0 <= i < settled.pipes.len() && (#[trigger] settled.pipes[i]).lit() implies lists(
        connected,
        settled.pipes[i].connector,
    ) by {
        if i > 0 {
            assert(settled.pipes[i] == s.pipes[i]);
        }
    }
    lemma_begin_adding_converges(was_dark, connected, settled, prefs);
}

proof fn lemma_added_converges<P: Platform>(
    was_dark: bool,
    connected: Seq<Connector>,
    failed: Set<u32>,
    queue: Seq<usize>,
    next: nat,
    s: ReconcileState<P>,
    output: P::Output,
    built: Option<Built<P>>,
    prefs: Preferences,
)
    requires
        converging(
            connected,
            failed,
            ReconcileModel::Adding { was_dark, connected, queue, next },
            s,
        ),
        built matches Some(b) ==> b.connector == connected[queue[next as int] as int].handle,
    ensures
        ({
            let r = step_added(was_dark, connected, queue, next, s, output, built, prefs);
            let now_failed = if built is None {
                failed.insert(connected[queue[next as int] as int].handle)
            } else {
                failed
            };
            converging(connected, now_failed, r.0, r.1)
        }),
{
    let at = queue[next as int] as int;
    let asked_for = connected[at].handle;
    let pipes = match built {
        Some(b) => s.pipes.push(new_pipe(output, right_edge(s.pipes) as i32, b, s.vulkan_mode)),
        None => s.pipes,
    };
    let now_failed = if built is None {
        failed.insert(asked_for)
    } else {
        failed
    };
    assert forall|i: int| 0 <= i < pipes.len() && (#[trigger] pipes[i]).lit() implies lists(
        connected,
        pipes[i].connector,
    ) by {
        if i < s.pipes.len() {
            assert(pipes[i] == s.pipes[i]);
        } else {
            assert(connected[at].handle == pipes[i].connector);
        }
    }
    assert forall|i: int| 0 <= i < connected.len() implies drives(
        pipes,
        (#[trigger] connected[i]).handle,
    ) || queued(queue, next + 1, i) || now_failed.contains(connected[i].handle) by {
        let h = connected[i].handle;
        if drives(s.pipes, h) {
            let k = choose|k: int|
                0 <= k < s.pipes.len() && (#[trigger] s.pipes[k]).lit() && s.pipes[k].connector
                    == h;
            assert(pipes[k].lit());
        } else if i == at {
            if built is Some {
                assert(pipes[s.pipes.len() as int].lit());
            }
        } else if queued(queue, next, i) {
            let j = choose|j: int| next <= j < queue.len() && #[trigger] queue[j] == i;
            assert(j != next);
        }
    }
    if next + 1 >= queue.len() {
        assert forall|i: int| 0 <= i < connected.len() implies drives(
            pipes,
            (#[trigger] connected[i]).handle,
        ) || now_failed.contains(connected[i].handle) by {
            assert(!queued(queue, next + 1, i));
        }
    }
}

/// The additions that follow, each with the output that was built for it, or was not.
pub open spec fn additions<P: Platform>(
    r: (ReconcileModel, ReconcileState<P>, ReconcileWork),
    works: Seq<(P::Output, Option<Built<P>>)>,
    prefs: Preferences,
) -> (ReconcileModel, ReconcileState<P>, ReconcileWork)
    decreases works.len(),
{
    match r.0 {
        ReconcileModel::Adding { was_dark, connected, queue, next } if works.len() > 0 => additions(
            step_added(was_dark, connected, queue, next, r.1, works[0].0, works[0].1, prefs),
            works.drop_first(),
            prefs,
        ),
        _ => r,
    }
}

/// Whether no addition that is asked for is missing, and what was built for each, if anything
/// was, drives the connector that was asked for.
pub open spec fn as_asked<P: Platform>(
    r: (ReconcileModel, ReconcileState<P>, ReconcileWork),
    works: Seq<(P::Output, Option<Built<P>>)>,
    prefs: Preferences,
) -> bool
    decreases works.len(),
{
    match r.0 {
        ReconcileModel::Adding { was_dark, connected, queue, next } => works.len() > 0 && (
        works[0].1 matches Some(b) ==> asked(r.2) == Some(b.connector)) && as_asked(
            step_added(was_dark, connected, queue, next, r.1, works[0].0, works[0].1, prefs),
            works.drop_first(),
            prefs,
        ),
        _ => true,
    }
}

/// The connectors whose addition failed: nothing was built for them.
pub open spec fn refused<P: Platform>(
    r: (ReconcileModel, ReconcileState<P>, ReconcileWork),
    works: Seq<(P::Output, Option<Built<P>>)>,
    prefs: Preferences,
) -> Set<u32>
    decreases works.len(),
{
    match r.0 {
        ReconcileModel::Adding { was_dark, connected, queue, next } if works.len() > 0 => {
            let rest = refused(
                step_added(was_dark, connected, queue, next, r.1, works[0].0, works[0].1, prefs),
                works.drop_first(),
                prefs,
            );
            match (works[0].1, asked(r.2)) {
                (None, Some(handle)) => rest.insert(handle),
                _ => rest,
            }
        },
        _ => Set::empty(),
    }
}

/// What an addition asks for is the connector that is next in the queue.
pub open spec fn asks_next<P: Platform>(
    r: (ReconcileModel, ReconcileState<P>, ReconcileWork),
) -> bool {
    r.0 matches ReconcileModel::Adding { connected, queue, next, .. } ==> asked(r.2) == Some(
        connected[queue[next as int] as int].handle,
    )
}

proof fn lemma_additions_converge<P: Platform>(
    connected: Seq<Connector>,
    failed: Set<u32>,
    r: (ReconcileModel, ReconcileState<P>, ReconcileWork),
    works: Seq<(P::Output, Option<Built<P>>)>,
    prefs: Preferences,
)
    requires
        r.0 is Adding || r.0 is Publishing,
        asks_next(r),
        converging(connected, failed, r.0, r.1),
        as_asked(r, works, prefs),
    ensures
        ({
            let end = additions(r, works, prefs);
            end.0 is Publishing && converging(
                connected,
                failed.union(refused(r, works, prefs)),
                end.0,
                end.1,
            )
        }),
    decreases works.len(),
{
    match r.0 {
        ReconcileModel::Adding { was_dark, connected: c, queue, next } => {
            let (output, built) = works[0];
            let now = step_added(was_dark, c, queue, next, r.1, output, built, prefs);
            lemma_added_converges(was_dark, c, failed, queue, next, r.1, output, built, prefs);
            let now_failed = if built is None {
                failed.insert(c[queue[next as int] as int].handle)
            } else {
                failed
            };
            lemma_additions_converge(connected, now_failed, now, works.drop_first(), prefs);
            assert(now_failed.union(refused(now, works.drop_first(), prefs)) =~= failed.union(
                refused(r, works, prefs),
            ));
        },
        _ => {
            assert(failed.union(refused(r, works, prefs)) =~= failed);
        },
    }
}

/// Where all additions succeed, none is refused.
pub proof fn lemma_none_refused<P: Platform>(
    r: (ReconcileModel, ReconcileState<P>, ReconcileWork),
    works: Seq<(P::Output, Option<Built<P>>)>,
    prefs: Preferences,
)
    requires
        forall|j: int| 0 <= j < works.len() ==> (#[trigger] works[j]).1 is Some,
    ensures
        refused(r, works, prefs) == Set::<u32>::empty(),
    decreases works.len(),
{
    match r.0 {
        ReconcileModel::Adding { was_dark, connected, queue, next } if works.len() > 0 => {
            assert(works[0].1 is Some);
            lemma_none_refused(
                step_added(was_dark, connected, queue, next, r.1, works[0].0, works[0].1, prefs),
                works.drop_first(),
                prefs,
            );
        },
        _ => {},
    }
}

/// Where what is built is built on the connector that is asked for, a reconciliation ends with
/// only connected monitors driven, and every connected monitor driven but those whose own
/// addition failed. A monitor that the primary failed to drive is one of the additions.
pub proof fn lemma_reconcile_converges<P: Platform>(
    was_dark: bool,
    s: ReconcileState<P>,
    connectors: Seq<Connector>,
    primary: Option<Built<P>>,
    works: Seq<(P::Output, Option<Built<P>>)>,
    prefs: Preferences,
)
    requires
        connectors.len() <= usize::MAX,
        s.pipes.len() > 0,
        ({
            let scanned = step_connectors(was_dark, s, connectors, prefs);
            let settled = settle(scanned, primary, prefs);
            &&& scanned.0 is Electing ==> (primary matches Some(b) ==> asked(scanned.2) == Some(
                b.connector,
            ))
            &&& as_asked(settled, works, prefs)
        }),
    ensures
        ({
            let settled = settle(step_connectors(was_dark, s, connectors, prefs), primary, prefs);
            let end = additions(settled, works, prefs);
            let connected = connectors.filter(plugged());
            &&& end.0 is Publishing
            &&& forall|i: int|
                0 <= i < connected.len() ==> drives(end.1.pipes, (#[trigger] connected[i]).handle)
                    || refused(settled, works, prefs).contains(connected[i].handle)
            &&& (forall|j: int| 0 <= j < works.len() ==> (#[trigger] works[j]).1 is Some)
                ==> forall|i: int|
                0 <= i < connected.len() ==> drives(end.1.pipes, (#[trigger] connected[i]).handle)
            &&& forall|i: int|
                0 <= i < end.1.pipes.len() && (#[trigger] end.1.pipes[i]).lit() ==> lists(
                    connected,
                    end.1.pipes[i].connector,
                )
        }),
{
    let connected = connectors.filter(plugged());
    connectors.lemma_filter_len(plugged());
    let scanned = step_connectors(was_dark, s, connectors, prefs);
    lemma_connectors_converge(was_dark, s, connectors, prefs);
    if scanned.0 is Electing {
        lemma_primary_converges(was_dark, connected, scanned.1, primary, prefs);
    }
    let settled = settle(scanned, primary, prefs);
    lemma_additions_converge(connected, Set::empty(), settled, works, prefs);
    assert(Set::empty().union(refused(settled, works, prefs)) =~= refused(settled, works, prefs));
    if forall|j: int| 0 <= j < works.len() ==> (#[trigger] works[j]).1 is Some {
        lemma_none_refused(settled, works, prefs);
    }
}

/// The primary brought up with what was built, or gone dark, if it was asked for.
pub open spec fn settle<P: Platform>(
    r: (ReconcileModel, ReconcileState<P>, ReconcileWork),
    primary: Option<Built<P>>,
    prefs: Preferences,
) -> (ReconcileModel, ReconcileState<P>, ReconcileWork) {
    match r.0 {
        ReconcileModel::Electing { was_dark, connected } => step_primary(
            was_dark,
            connected,
            r.1,
            primary,
            prefs,
        ),
        _ => r,
    }
}

/// How many additions are still to be made.
pub open spec fn additions_left(m: ReconcileModel) -> nat {
    match m {
        ReconcileModel::Adding { queue, next, .. } => if next < queue.len() {
            (queue.len() - next) as nat
        } else {
            0
        },
        _ => 0,
    }
}

/// A reconciliation comes to its end: once the primary is settled, no more additions follow
/// than monitors are connected, and whatever each comes to, one fewer is left.
pub proof fn lemma_reconcile_ends<P: Platform>(
    was_dark: bool,
    s: ReconcileState<P>,
    connected: Seq<Connector>,
    queue: Seq<usize>,
    next: nat,
    output: P::Output,
    built: Option<Built<P>>,
    prefs: Preferences,
)
    ensures
        ({
            let r = begin_adding(was_dark, connected, s, prefs);
            &&& r.0 is Adding <==> additions_left(r.0) > 0
            &&& r.0 is Publishing <==> additions_left(r.0) == 0
            &&& additions_left(r.0) <= connected.len()
        }),
        next < queue.len() ==> ({
            let m = ReconcileModel::Adding { was_dark, connected, queue, next };
            let r = step_added(was_dark, connected, queue, next, s, output, built, prefs);
            &&& additions_left(r.0) == additions_left(m) - 1
            &&& r.0 is Publishing <==> additions_left(r.0) == 0
        }),
{
    lemma_undriven_bound(s.pipes, connected, connected.len() as int);
}

proof fn lemma_undriven_bound<P: Platform>(
    pipes: Seq<OutputPipe<P>>,
    connected: Seq<Connector>,
    n: int,
)
    requires
        0 <= n,
    ensures
        undriven(pipes, connected, n).len() <= n,
    decreases n,
{
    if n > 0 {
        lemma_undriven_bound(pipes, connected, n - 1);
    }
}

/// An added output overlaps no other, wherever those lie and whichever were dropped before; and
/// outputs that stand side by side from 0 on, without a gap, still do with it.
pub proof fn lemma_additions_tile<P: Platform>(
    pipes: Seq<OutputPipe<P>>,
    output: P::Output,
    built: Built<P>,
    vulkan_mode: bool,
)
    requires
        edges_fit(pipes),
        built.wf(),
    ensures
        ({
            let added = new_pipe(output, right_edge(pipes) as i32, built, vulkan_mode);
            let after = pipes.push(added);
            &&& added.x == right_edge(pipes)
            &&& forall|i: int|
                0 <= i < pipes.len() ==> (#[trigger] pipes[i]).right() <= added.x
                    && added.apart_from(pipes[i])
            &&& tiled(pipes) ==> added.x == total_width(pipes) && tiled(after)
        }),
{
    lemma_right_edge(pipes);
    let added = new_pipe(output, right_edge(pipes) as i32, built, vulkan_mode);
    let after = pipes.push(added);
    if tiled(pipes) {
        assert forall|i: int| 0 <= i < after.len() implies (#[trigger] after[i]).x == total_width(
            after.take(i),
        ) && after[i].mode.width >= 0 by {
            assert(after.take(i) =~= pipes.take(i));
            if i < pipes.len() {
                assert(after[i] == pipes[i]);
            } else {
                assert(pipes.take(i) =~= pipes);
            }
        }
    }
}

/// Whether no two of the pipes have a column in common.
pub open spec fn all_apart<P: Platform>(pipes: Seq<OutputPipe<P>>) -> bool {
    forall|i: int, j: int|
        0 <= i < j < pipes.len() ==> (#[trigger] pipes[i]).apart_from(#[trigger] pipes[j])
}

proof fn lemma_filter_apart<P: Platform>(
    anchor: OutputPipe<P>,
    pipes: Seq<OutputPipe<P>>,
    p: spec_fn(OutputPipe<P>) -> bool,
)
    requires
        all_apart(seq![anchor] + pipes),
    ensures
        all_apart(seq![anchor] + pipes.filter(p)),
    decreases pipes.len(),
{
    reveal(Seq::filter);
    if pipes.len() > 0 {
        let init = pipes.drop_last();
        let all = seq![anchor] + pipes;
        let before = seq![anchor] + init;
        assert forall|i: int, j: int| 0 <= i < j < before.len() implies (
        #[trigger] before[i]).apart_from(#[trigger] before[j]) by {
            assert(before[i] == all[i] && before[j] == all[j]);
        }
        lemma_filter_apart(anchor, init, p);
        if p(pipes.last()) {
            let kept = seq![anchor] + init.filter(p);
            let after = seq![anchor] + pipes.filter(p);
            assert(after =~= kept.push(pipes.last()));
            assert forall|i: int, j: int| 0 <= i < j < after.len() implies (
            #[trigger] after[i]).apart_from(#[trigger] after[j]) by {
                if j < kept.len() {
                    assert(after[i] == kept[i] && after[j] == kept[j]);
                } else if i == 0 {
                    assert(all[0].apart_from(all[pipes.len() as int]));
                } else {
                    assert(after[i] == init.filter(p)[i - 1]);
                    assert(init.filter(p).contains(after[i]));
                    init.lemma_filter_contains_rev(p, after[i]);
                    let k = choose|k: int| 0 <= k < init.len() && init[k] == after[i];
                    assert(all[k + 1].apart_from(all[pipes.len() as int]));
                }
            }
        }
    }
}

/// Outputs that do not overlap still do not after some were dropped, after the primary went dark,
/// and after others were added; and after the primary was brought up anew, exactly if it overlaps
/// none of the others in the mode that it then has.
pub proof fn lemma_reconcile_apart<P: Platform>(
    was_dark: bool,
    s: ReconcileState<P>,
    connectors: Seq<Connector>,
    prefs: Preferences,
    connected: Seq<Connector>,
    queue: Seq<usize>,
    next: nat,
    output: P::Output,
    built: Option<Built<P>>,
)
    requires
        s.pipes.len() > 0,
        edges_fit(s.pipes),
        all_apart(s.pipes),
        built matches Some(b) ==> b.wf(),
    ensures
        all_apart(step_connectors(was_dark, s, connectors, prefs).1.pipes),
        all_apart(step_primary(was_dark, connected, s, built, prefs).1.pipes) <==> (
        built matches Some(b) ==> forall|i: int|
            1 <= i < s.pipes.len() ==> s.pipes[0].driving(b, s.vulkan_mode).apart_from(
                #[trigger] s.pipes[i],
            )),
        all_apart(
            step_added(was_dark, connected, queue, next, s, output, built, prefs).1.pipes,
        ),
{
    let there = still_there::<P>(connectors.filter(plugged()));
    let rest = s.pipes.skip(1);
    assert(seq![s.pipes[0]] + rest =~= s.pipes);
    lemma_filter_apart(s.pipes[0], rest, there);
    let pruned = s.pipes.take(1) + rest.filter(there);
    assert(pruned =~= seq![s.pipes[0]] + rest.filter(there));
    let scanned = step_connectors(was_dark, s, connectors, prefs).1.pipes;
    assert(scanned.len() == pruned.len());
    assert forall|i: int, j: int| 0 <= i < j < scanned.len() implies (
    #[trigger] scanned[i]).apart_from(#[trigger] scanned[j]) by {
        assert(pruned[i].apart_from(pruned[j]));
    }
    let settled = step_primary(was_dark, connected, s, built, prefs).1.pipes;
    if built is None {
        assert forall|i: int, j: int| 0 <= i < j < settled.len() implies (
        #[trigger] settled[i]).apart_from(#[trigger] settled[j]) by {
            assert(s.pipes[i].apart_from(s.pipes[j]));
        }
    } else {
        let driven = s.pipes[0].driving(built.unwrap(), s.vulkan_mode);
        assert(settled == s.pipes.update(0, driven));
        if forall|i: int| 1 <= i < s.pipes.len() ==> driven.apart_from(#[trigger] s.pipes[i]) {
            assert forall|i: int, j: int| 0 <= i < j < settled.len() implies (
            #[trigger] settled[i]).apart_from(#[trigger] settled[j]) by {
                assert(settled[j] == s.pipes[j]);
                if i > 0 {
                    assert(settled[i] == s.pipes[i]);
                }
            }
        }
        if all_apart(settled) {
            assert forall|i: int| 1 <= i < s.pipes.len() implies driven.apart_from(
                #[trigger] s.pipes[i],
            ) by {
                assert(settled[0].apart_from(settled[i]));
            }
        }
    }
    if let Some(b) = built {
        lemma_additions_tile(s.pipes, output, b, s.vulkan_mode);
    }
    let added = step_added(was_dark, connected, queue, next, s, output, built, prefs).1.pipes;
    assert forall|i: int, j: int| 0 <= i < j < added.len() implies (#[trigger] added[i]).apart_from(
        #[trigger] added[j],
    ) by {
        if j < s.pipes.len() {
            assert(added[i] == s.pipes[i] && added[j] == s.pipes[j]);
        } else {
            assert(added[i] == s.pipes[i]);
        }
    }
}

/// Whether every pipe that drives a connected monitor is still among the pipes, unchanged.
pub open spec fn keeps_live<P: Platform>(
    connected: Seq<Connector>,
    before: Seq<OutputPipe<P>>,
    after: Seq<OutputPipe<P>>,
) -> bool {
    forall|i: int|
        0 <= i < before.len() && (#[trigger] before[i]).lit() && lists(
            connected,
            before[i].connector,
        ) ==> after.contains(before[i])
}

/// However the scan and the builds come out, no decision of a reconciliation touches an output
/// that drives a connected monitor.
pub proof fn lemma_reconcile_keeps_live<P: Platform>(
    was_dark: bool,
    s: ReconcileState<P>,
    connectors: Seq<Connector>,
    prefs: Preferences,
    connected: Seq<Connector>,
    queue: Seq<usize>,
    next: nat,
    output: P::Output,
    built: Option<Built<P>>,
)
    requires
        s.pipes.len() > 0,
    ensures
        keeps_live(
            connectors.filter(plugged()),
            s.pipes,
            step_connectors(was_dark, s, connectors, prefs).1.pipes,
        ),
        !s.pipes[0].lit() ==> keeps_live(
            connected,
            s.pipes,
            step_primary(was_dark, connected, s, built, prefs).1.pipes,
        ),
        keeps_live(
            connected,
            s.pipes,
            step_added(was_dark, connected, queue, next, s, output, built, prefs).1.pipes,
        ),
{
    let plugged_in = connectors.filter(plugged());
    let there = still_there::<P>(plugged_in);
    let rest = s.pipes.skip(1);
    let scanned = step_connectors(was_dark, s, connectors, prefs).1.pipes;
    assert forall|i: int|
        0 <= i < s.pipes.len() && (#[trigger] s.pipes[i]).lit() && lists(
            plugged_in,
            s.pipes[i].connector,
        ) implies scanned.contains(s.pipes[i]) by {
        if i == 0 {
            assert(scanned[0] == s.pipes[0]);
        } else {
            assert(rest[i - 1] == s.pipes[i]);
            rest.lemma_filter_contains(there, i - 1);
            let k = choose|k: int|
                0 <= k < rest.filter(there).len() && rest.filter(there)[k] == s.pipes[i];
            assert(scanned[k + 1] == s.pipes[i]);
        }
    }
    if !s.pipes[0].lit() {
        let settled = step_primary(was_dark, connected, s, built, prefs).1.pipes;
        assert forall|i: int|
            0 <= i < s.pipes.len() && (#[trigger] s.pipes[i]).lit() && lists(
                connected,
                s.pipes[i].connector,
            ) implies settled.contains(s.pipes[i]) by {
            assert(settled[i] == s.pipes[i]);
        }
    }
    let added = step_added(was_dark, connected, queue, next, s, output, built, prefs).1.pipes;
    assert forall|i: int|
        0 <= i < s.pipes.len() && (#[trigger] s.pipes[i]).lit() && lists(
            connected,
            s.pipes[i].connector,
        ) implies added.contains(s.pipes[i]) by {
        assert(added[i] == s.pipes[i]);
    }
}

proof fn lemma_filter_all<T>(s: Seq<T>, p: spec_fn(T) -> bool)
    requires
        forall|i: int| 0 <= i < s.len() ==> p(#[trigger] s[i]),
    ensures
        s.filter(p) == s,
    decreases s.len(),
{
    reveal(Seq::filter);
    if s.len() > 0 {
        lemma_filter_all(s.drop_last(), p);
        assert(s.drop_last().push(s.last()) =~= s);
    } else {
        assert(s.filter(p) =~= s);
    }
}

proof fn lemma_undriven_none<P: Platform>(
    pipes: Seq<OutputPipe<P>>,
    connected: Seq<Connector>,
    n: int,
)
    requires
        0 <= n <= connected.len(),
        forall|i: int| 0 <= i < n ==> drives(pipes, (#[trigger] connected[i]).handle),
    ensures
        undriven(pipes, connected, n) == Seq::<usize>::empty(),
    decreases n,
{
    if n > 0 {
        lemma_undriven_none(pipes, connected, n - 1);
    }
}

/// A reconciliation of outputs that already are what is connected changes none of them: it goes
/// straight to its end.
pub proof fn lemma_reconcile_settled<P: Platform>(
    was_dark: bool,
    s: ReconcileState<P>,
    connectors: Seq<Connector>,
    prefs: Preferences,
)
    requires
        s.pipes.len() > 0,
        s.pipes[0].lit(),
        ({
            let connected = connectors.filter(plugged());
            &&& forall|i: int|
                0 <= i < s.pipes.len() ==> lists(connected, (#[trigger] s.pipes[i]).connector)
            &&& forall|i: int|
                0 <= i < connected.len() ==> drives(s.pipes, (#[trigger] connected[i]).handle)
        }),
    ensures
        step_connectors(was_dark, s, connectors, prefs) == (
            ReconcileModel::Publishing { was_dark, live: true },
            ReconcileState { display_off: false, ..s },
            ReconcileWork::Survey,
        ),
{
    let connected = connectors.filter(plugged());
    let there = still_there::<P>(connected);
    let rest = s.pipes.skip(1);
    assert forall|i: int| 0 <= i < rest.len() implies there(#[trigger] rest[i]) by {
        assert(rest[i] == s.pipes[i + 1]);
    }
    lemma_filter_all(rest, there);
    assert(s.pipes.take(1) + rest =~= s.pipes);
    lemma_undriven_none(s.pipes, connected, connected.len() as int);
    assert(any_lit(s.pipes));
}

/// Where the elements stand that a filter keeps: in order, and no other.
pub proof fn lemma_filter_positions<T>(s: Seq<T>, p: spec_fn(T) -> bool) -> (at: Seq<int>)
    ensures
        at.len() == s.filter(p).len(),
        forall|k: int|
            0 <= k < at.len() ==> 0 <= #[trigger] at[k] < s.len() && p(s[at[k]]) && s.filter(p)[k]
                == s[at[k]],
        forall|k: int, l: int| 0 <= k < l < at.len() ==> #[trigger] at[k] < #[trigger] at[l],
        forall|i: int| 0 <= i < s.len() && p(#[trigger] s[i]) ==> at.contains(i),
    decreases s.len(),
{
    reveal(Seq::filter);
    if s.len() == 0 {
        Seq::empty()
    } else {
        let init = s.drop_last();
        let before = lemma_filter_positions(init, p);
        let at = if p(s.last()) {
            before.push(s.len() - 1)
        } else {
            before
        };
        assert forall|i: int| 0 <= i < s.len() && p(#[trigger] s[i]) implies at.contains(i) by {
            if i < init.len() {
                assert(init[i] == s[i]);
                let k = choose|k: int| 0 <= k < before.len() && before[k] == i;
                assert(at[k] == i);
            } else {
                assert(at[before.len() as int] == i);
            }
        }
        assert forall|k: int| 0 <= k < at.len() implies 0 <= #[trigger] at[k] < s.len() && p(
            s[at[k]],
        ) && s.filter(p)[k] == s[at[k]] by {
            if k < before.len() {
                assert(at[k] == before[k]);
                assert(init[before[k]] == s[before[k]]);
            }
        }
        at
    }
}

/// A scan drops exactly the secondary outputs whose connector no monitor is connected to, and
/// leaves the others as they are and in their order; where those stood that are left is given.
pub proof fn lemma_scan_drops_the_vanished<P: Platform>(
    was_dark: bool,
    s: ReconcileState<P>,
    connectors: Seq<Connector>,
    prefs: Preferences,
) -> (at: Seq<int>)
    requires
        s.pipes.len() > 0,
    ensures
        ({
            let after = step_connectors(was_dark, s, connectors, prefs).1.pipes;
            &&& after.len() == at.len() + 1
            &&& forall|k: int|
                0 <= k < at.len() ==> 1 <= #[trigger] at[k] < s.pipes.len() && after[k + 1]
                    == s.pipes[at[k]] && exists|j: int|
                    0 <= j < connectors.len() && (#[trigger] connectors[j]).connected
                        && connectors[j].handle == s.pipes[at[k]].connector
            &&& forall|k: int, l: int| 0 <= k < l < at.len() ==> #[trigger] at[k] < #[trigger] at[l]
            &&& forall|i: int|
                1 <= i < s.pipes.len() && (exists|j: int|
                    0 <= j < connectors.len() && (#[trigger] connectors[j]).connected
                        && connectors[j].handle == (#[trigger] s.pipes[i]).connector)
                    ==> at.contains(i)
        }),
{
    let connected = connectors.filter(plugged());
    lemma_plugged(connectors);
    let there = still_there::<P>(connected);
    let rest = s.pipes.skip(1);
    let in_rest = lemma_filter_positions(rest, there);
    let at = in_rest.map_values(|i: int| i + 1);
    let after = step_connectors(was_dark, s, connectors, prefs).1.pipes;
    assert forall|k: int| 0 <= k < at.len() implies 1 <= #[trigger] at[k] < s.pipes.len() && after[k
        + 1] == s.pipes[at[k]] && exists|j: int|
        0 <= j < connectors.len() && (#[trigger] connectors[j]).connected && connectors[j].handle
            == s.pipes[at[k]].connector by {
        assert(rest[in_rest[k]] == s.pipes[at[k]]);
        assert(there(rest[in_rest[k]]));
        assert(lists(connected, s.pipes[at[k]].connector));
    }
    assert forall|k: int, l: int| 0 <= k < l < at.len() implies #[trigger] at[k]
        < #[trigger] at[l] by {
        assert(in_rest[k] < in_rest[l]);
    }
    assert forall|i: int|
        1 <= i < s.pipes.len() && (exists|j: int|
            0 <= j < connectors.len() && (#[trigger] connectors[j]).connected
                && connectors[j].handle == (#[trigger] s.pipes[i]).connector) implies at.contains(
        i,
    ) by {
        assert(lists(connected, s.pipes[i].connector));
        assert(rest[i - 1] == s.pipes[i]);
        assert(there(rest[i - 1]));
        let k = choose|k: int| 0 <= k < in_rest.len() && in_rest[k] == i - 1;
        assert(at[k] == i);
    }
    at
}

/// What a scan decides on the primary: it stays as it is where it drives a monitor that is
/// connected. Else it goes dark, and is asked for on the first connected monitor of the preferred
/// kind, or where that is not there, on the first that is connected, at the mode that is asked
/// for that monitor.
pub proof fn lemma_scan_settles_the_primary<P: Platform>(
    was_dark: bool,
    s: ReconcileState<P>,
    connectors: Seq<Connector>,
    prefs: Preferences,
)
    requires
        s.pipes.len() > 0,
    ensures
        ({
            let r = step_connectors(was_dark, s, connectors, prefs);
            let live = s.pipes[0].drm_output is Some && exists|j: int|
                0 <= j < connectors.len() && (#[trigger] connectors[j]).connected
                    && connectors[j].handle == s.pipes[0].connector;
            &&& live ==> r.1.pipes[0] == s.pipes[0] && r.2 !is BuildPrimary
            &&& !live ==> r.1.pipes[0] == (OutputPipe { drm_output: None, ..s.pipes[0] })
            &&& r.2 is BuildPrimary <==> !live && exists|j: int|
                0 <= j < connectors.len() && (#[trigger] connectors[j]).connected
            &&& r.2 matches ReconcileWork::BuildPrimary { handle, requested } ==> {
                &&& r.1.display_off == s.display_off
                &&& exists|k: int|
                    #![trigger connectors[k]]
                    0 <= k < connectors.len() && connectors[k].connected && handle
                        == connectors[k].handle && requested == prefs.mode_for(connectors[k].key@)
                        && match prefs.preferred() {
                        Some(key) => (connectors[k].key@ == key && forall|j: int|
                            0 <= j < k ==> !((#[trigger] connectors[j]).connected
                                && connectors[j].key@ == key)) || ((forall|j: int|
                            0 <= j < k ==> !(#[trigger] connectors[j]).connected) && forall|j: int|
                            0 <= j < connectors.len() ==> !((#[trigger] connectors[j]).connected
                                && connectors[j].key@ == key)),
                        None => forall|j: int|
                            0 <= j < k ==> !(#[trigger] connectors[j]).connected,
                    }
            }
            &&& r.1.vulkan_mode == s.vulkan_mode
        }),
{
    let connected = connectors.filter(plugged());
    lemma_plugged(connectors);
    let at = lemma_filter_positions(connectors, plugged());
    let pipes = s.pipes.take(1) + s.pipes.skip(1).filter(still_there(connected));
    assert(pipes[0] == s.pipes[0]);
    assert(lists(connected, s.pipes[0].connector) <==> exists|j: int|
        0 <= j < connectors.len() && (#[trigger] connectors[j]).connected && connectors[j].handle
            == s.pipes[0].connector);
    lemma_picked(connected, prefs.preferred());
    match picked(connected, prefs.preferred()) {
        Some(m) => {
            let k = at[m];
            assert(connected[m] == connectors[k]);
            assert(connectors[k].connected);
            assert forall|j: int| 0 <= j < connectors.len() && (
            #[trigger] connectors[j]).connected implies exists|i: int|
                0 <= i < at.len() && at[i] == j && connected[i] == connectors[j] by {
                assert(plugged()(connectors[j]));
                assert(at.contains(j));
                let i = choose|i: int| 0 <= i < at.len() && at[i] == j;
                assert(connected[i] == connectors[at[i]]);
            }
            assert forall|j: int| 0 <= j < k && m == 0 implies !(
            #[trigger] connectors[j]).connected by {
                if connectors[j].connected {
                    let i = choose|i: int|
                        0 <= i < at.len() && at[i] == j && connected[i] == connectors[j];
                    assert(at[0] <= at[i]);
                }
            }
            if let Some(key) = prefs.preferred() {
                assert forall|j: int|
                    0 <= j < connectors.len() && (#[trigger] connectors[j]).connected
                        && connectors[j].key@ == key implies k <= j && connectors[k].key@ == key by {
                    let i = choose|i: int|
                        0 <= i < at.len() && at[i] == j && connected[i] == connectors[j];
                    assert(connected[i].key@ == key);
                    assert(m <= i);
                }
            }
        },
        None => {},
    }
}

/// The additions that follow a settled primary are the connected monitors that no driven output
/// has, each once, in the order of the scan; with none of them, the end follows.
pub proof fn lemma_additions_are_the_undriven<P: Platform>(
    was_dark: bool,
    connected: Seq<Connector>,
    s: ReconcileState<P>,
    prefs: Preferences,
    i: int,
)
    requires
        0 <= i < connected.len() <= usize::MAX,
    ensures
        ({
            let r = begin_adding(was_dark, connected, s, prefs);
            &&& r.1.pipes == s.pipes
            &&& r.0 is Adding <==> exists|i: int|
                #![trigger connected[i]]
                0 <= i < connected.len() && forall|p: int|
                    0 <= p < s.pipes.len() ==> (#[trigger] s.pipes[p]).drm_output is None
                        || s.pipes[p].connector != connected[i].handle
            &&& r.0 matches ReconcileModel::Adding { connected: c, queue, next, was_dark: w } ==> {
                &&& c == connected
                &&& next == 0
                &&& w == was_dark
                &&& r.1 == s
                &&& forall|k: int, l: int|
                    0 <= k < l < queue.len() ==> #[trigger] queue[k] < #[trigger] queue[l]
                &&& forall|k: int|
                    0 <= k < queue.len() ==> 0 <= #[trigger] queue[k] < connected.len() && forall|p: int|
                        0 <= p < s.pipes.len() ==> (#[trigger] s.pipes[p]).drm_output is None
                            || s.pipes[p].connector != connected[queue[k] as int].handle
                &&& queue.contains(i as usize) <==> forall|p: int|
                    0 <= p < s.pipes.len() ==> (#[trigger] s.pipes[p]).drm_output is None
                        || s.pipes[p].connector != connected[i].handle
            }
        }),
{
    let n = connected.len() as int;
    lemma_undriven(s.pipes, connected, n);
    lemma_undriven_sorted(s.pipes, connected, n);
    let queue = undriven(s.pipes, connected, n);
    assert forall|h: u32| #[trigger] drives(s.pipes, h) <==> !(forall|p: int|
        0 <= p < s.pipes.len() ==> (#[trigger] s.pipes[p]).drm_output is None
            || s.pipes[p].connector != h) by {
        if drives(s.pipes, h) {
            let p = choose|p: int|
                0 <= p < s.pipes.len() && (#[trigger] s.pipes[p]).lit() && s.pipes[p].connector == h;
            assert(s.pipes[p].drm_output is Some);
        }
        if !(forall|p: int|
            0 <= p < s.pipes.len() ==> (#[trigger] s.pipes[p]).drm_output is None
                || s.pipes[p].connector != h) {
            let p = choose|p: int|
                0 <= p < s.pipes.len() && !((#[trigger] s.pipes[p]).drm_output is None
                    || s.pipes[p].connector != h);
            assert(s.pipes[p].lit());
        }
    }
    assert forall|k: int| 0 <= k < queue.len() implies 0 <= #[trigger] queue[k] < connected.len()
        && forall|p: int|
        0 <= p < s.pipes.len() ==> (#[trigger] s.pipes[p]).drm_output is None
            || s.pipes[p].connector != connected[queue[k] as int].handle by {
        assert(!drives(s.pipes, connected[queue[k] as int].handle));
    }
    assert(drives(s.pipes, connected[i].handle) || queue.contains(i as usize));
    if queue.contains(i as usize) {
        let k = choose|k: int| 0 <= k < queue.len() && queue[k] == i as usize;
        assert(queue[k] == i);
    }
    let some_left = exists|i: int|
        #![trigger connected[i]]
        0 <= i < connected.len() && forall|p: int|
            0 <= p < s.pipes.len() ==> (#[trigger] s.pipes[p]).drm_output is None
                || s.pipes[p].connector != connected[i].handle;
    if queue.len() > 0 {
        let i = queue[0] as int;
        assert(0 <= i < connected.len() && connected[i].handle == connected[queue[0] as int].handle);
        assert(some_left);
    }
    if some_left {
        let i = choose|i: int|
            #![trigger connected[i]]
            0 <= i < connected.len() && forall|p: int|
                0 <= p < s.pipes.len() ==> (#[trigger] s.pipes[p]).drm_output is None
                    || s.pipes[p].connector != connected[i].handle;
        assert(!drives(s.pipes, connected[i].handle));
        assert(queue.contains(i as usize));
    }
}

proof fn lemma_undriven_sorted<P: Platform>(
    pipes: Seq<OutputPipe<P>>,
    connected: Seq<Connector>,
    n: int,
)
    requires
        0 <= n <= connected.len() <= usize::MAX,
    ensures
        forall|k: int, l: int|
            0 <= k < l < undriven(pipes, connected, n).len() ==> #[trigger] undriven(
                pipes,
                connected,
                n,
            )[k] < #[trigger] undriven(pipes, connected, n)[l],
    decreases n,
{
    if n > 0 {
        lemma_undriven_sorted(pipes, connected, n - 1);
        lemma_undriven(pipes, connected, n - 1);
        let before = undriven(pipes, connected, n - 1);
        let now = undriven(pipes, connected, n);
        assert forall|k: int, l: int| 0 <= k < l < now.len() implies #[trigger] now[k]
            < #[trigger] now[l] by {
            assert(now[k] == before[k]);
            if l < before.len() {
                assert(now[l] == before[l]);
            } else {
                assert(now[l] == n - 1);
            }
        }
    }
}

/// What follows a decision: while connectors are left in the queue, an output on the next of
/// them, at the mode that is asked for its monitor, and nothing changes; else the end, where
/// the render loop idles no longer if something is driven.
pub proof fn lemma_what_follows<P: Platform>(
    was_dark: bool,
    connected: Seq<Connector>,
    queue: Seq<usize>,
    next: nat,
    s: ReconcileState<P>,
    prefs: Preferences,
)
    ensures
        ({
            let r = go_on(was_dark, connected, queue, next, s, prefs);
            let driven = exists|i: int|
                0 <= i < s.pipes.len() && (#[trigger] s.pipes[i]).drm_output is Some;
            &&& r.1.pipes == s.pipes
            &&& r.1.vulkan_mode == s.vulkan_mode
            &&& next < queue.len() ==> {
                let c = connected[queue[next as int] as int];
                &&& r.0 == ReconcileModel::Adding { was_dark, connected, queue, next }
                &&& r.1 == s
                &&& r.2 == ReconcileWork::BuildExtra {
                    handle: c.handle,
                    requested: prefs.mode_for(c.key@),
                }
            }
            &&& next >= queue.len() ==> {
                &&& r.0 == ReconcileModel::Publishing { was_dark, live: driven }
                &&& r.2 is Survey
                &&& r.1.display_off <==> s.display_off && !driven
            }
        }),
{
    lemma_any_lit(s.pipes);
}

/// What the build of the primary comes to: driven, it drives what was built, in its place, and
/// the render loop does not idle; else it is dark. No other output changes.
pub proof fn lemma_primary_settled<P: Platform>(
    was_dark: bool,
    connected: Seq<Connector>,
    s: ReconcileState<P>,
    built: Option<Built<P>>,
    prefs: Preferences,
)
    requires
        s.pipes.len() > 0,
    ensures
        ({
            let r = step_primary(was_dark, connected, s, built, prefs);
            let p = r.1.pipes[0];
            &&& r.1.pipes.len() == s.pipes.len()
            &&& forall|i: int| 1 <= i < s.pipes.len() ==> #[trigger] r.1.pipes[i] == s.pipes[i]
            &&& built matches Some(b) ==> {
                &&& p.drm_output == Some(b.drm_output)
                &&& (p.connector, p.crtc) == (b.connector, b.crtc)
                &&& (p.mode, p.current_drm_mode, p.modes) == (b.mode, b.drm_mode, b.modes)
                &&& p.hdr_active <==> b.hdr_wanted && b.hdr_capable && s.vulkan_mode
                &&& p.x == s.pipes[0].x
                &&& p.output == s.pipes[0].output
                &&& !r.1.display_off
            }
            &&& built is None ==> p == (OutputPipe { drm_output: None, ..s.pipes[0] })
            &&& built is None && (forall|i: int|
                1 <= i < s.pipes.len() ==> (#[trigger] s.pipes[i]).drm_output is None)
                && r.0 is Publishing ==> r.1.display_off
        }),
{
    let r = step_primary(was_dark, connected, s, built, prefs);
    lemma_any_lit(r.1.pipes);
    if built is Some {
        assert(r.1.pipes[0].drm_output is Some);
    }
    if built is None && (forall|i: int|
        1 <= i < s.pipes.len() ==> (#[trigger] s.pipes[i]).drm_output is None) {
        assert forall|i: int| 0 <= i < r.1.pipes.len() implies (
        #[trigger] r.1.pipes[i]).drm_output is None by {
            if i > 0 {
                assert(r.1.pipes[i] == s.pipes[i]);
            }
        }
    }
}

/// What the build of an additional output comes to: one more output that drives what was built,
/// to the right of all others, or none; the others stay as they are, and the queue goes on.
pub proof fn lemma_addition_settled<P: Platform>(
    was_dark: bool,
    connected: Seq<Connector>,
    queue: Seq<usize>,
    next: nat,
    s: ReconcileState<P>,
    output: P::Output,
    built: Option<Built<P>>,
    prefs: Preferences,
)
    requires
        edges_fit(s.pipes),
    ensures
        ({
            let r = step_added(was_dark, connected, queue, next, s, output, built, prefs);
            let p = r.1.pipes[s.pipes.len() as int];
            &&& forall|i: int| 0 <= i < s.pipes.len() ==> #[trigger] r.1.pipes[i] == s.pipes[i]
            &&& built is None ==> r.1.pipes.len() == s.pipes.len()
            &&& built matches Some(b) ==> {
                &&& r.1.pipes.len() == s.pipes.len() + 1
                &&& p.drm_output == Some(b.drm_output)
                &&& (p.connector, p.crtc) == (b.connector, b.crtc)
                &&& (p.mode, p.current_drm_mode, p.modes) == (b.mode, b.drm_mode, b.modes)
                &&& p.hdr_active <==> b.hdr_wanted && b.hdr_capable && s.vulkan_mode
                &&& p.output == output
                &&& forall|i: int|
                    0 <= i < s.pipes.len() ==> (#[trigger] s.pipes[i]).x + s.pipes[i].mode.width
                        <= p.x
            }
            &&& r.0 is Adding <==> next + 1 < queue.len()
            &&& r.0 matches ReconcileModel::Adding { connected: c, queue: q, next: n, .. } ==> c
                == connected && q == queue && n == next + 1
        }),
{
    lemma_right_edge(s.pipes);
}

/// How a reconciliation is told: as gone dark exactly if nothing is driven at its end, as
/// recovered exactly if something is and nothing was at its beginning.
pub proof fn lemma_change_told(was_dark: bool, live: bool)
    ensures
        change(was_dark, live) is WentDark <==> !live,
        change(was_dark, live) is Recovered <==> live && was_dark,
        change(was_dark, live) is Changed <==> live && !was_dark,
{
}

/// What a reconciliation reads and writes of the display, and what it leaves as it is.
pub proof fn lemma_reconcile_touches<P: Platform>(a: &Display<P>, b: &Display<P>)
    ensures
        a.reconcile_state().pipes == a.ctx.outputs@,
        a.reconcile_state().display_off == a.slots.display_off,
        a.reconcile_state().vulkan_mode == a.ctx.vulkan_mode,
        a.same_but_reconciled(b) ==> {
            &&& a.ctx.output_revert == b.ctx.output_revert
            &&& a.slots.display_snapshot == b.slots.display_snapshot
            &&& a.slots.modes_snapshot == b.slots.modes_snapshot
            &&& a.slots.outputs_snapshot == b.slots.outputs_snapshot
            &&& a.slots.switch_request == b.slots.switch_request
            &&& a.slots.switch_result == b.slots.switch_result
        },
{
}

/// The outputs that a scan gives back to be unmapped are exactly the secondary ones whose connector
/// no monitor is connected to, in their order; where they stood is given.
pub proof fn lemma_scan_gives_back_the_vanished<P: Platform>(
    pipes: Seq<OutputPipe<P>>,
    connectors: Seq<Connector>,
) -> (at: Seq<int>)
    requires
        pipes.len() > 0,
    ensures
        ({
            let dropped = pipes.skip(1).filter(
                negation(still_there::<P>(connectors.filter(plugged()))),
            );
            &&& dropped.len() == at.len()
            &&& forall|k: int|
                0 <= k < at.len() ==> 1 <= #[trigger] at[k] < pipes.len() && dropped[k]
                    == pipes[at[k]] && forall|j: int|
                    0 <= j < connectors.len() ==> !(#[trigger] connectors[j]).connected
                        || connectors[j].handle != pipes[at[k]].connector
            &&& forall|k: int, l: int| 0 <= k < l < at.len() ==> #[trigger] at[k] < #[trigger] at[l]
            &&& forall|i: int|
                1 <= i < pipes.len() ==> #[trigger] at.contains(i) || exists|j: int|
                    0 <= j < connectors.len() && (#[trigger] connectors[j]).connected
                        && connectors[j].handle == pipes[i].connector
        }),
{
    let connected = connectors.filter(plugged());
    lemma_plugged(connectors);
    let gone = negation(still_there::<P>(connected));
    let rest = pipes.skip(1);
    let in_rest = lemma_filter_positions(rest, gone);
    let at = in_rest.map_values(|i: int| i + 1);
    let dropped = rest.filter(gone);
    assert forall|k: int| 0 <= k < at.len() implies 1 <= #[trigger] at[k] < pipes.len()
        && dropped[k] == pipes[at[k]] && forall|j: int|
        0 <= j < connectors.len() ==> !(#[trigger] connectors[j]).connected || connectors[j].handle
            != pipes[at[k]].connector by {
        assert(rest[in_rest[k]] == pipes[at[k]]);
        assert(gone(rest[in_rest[k]]));
        assert(!lists(connected, pipes[at[k]].connector));
    }
    assert forall|k: int, l: int| 0 <= k < l < at.len() implies #[trigger] at[k]
        < #[trigger] at[l] by {
        assert(in_rest[k] < in_rest[l]);
    }
    assert forall|i: int| 1 <= i < pipes.len() implies #[trigger] at.contains(i) || exists|j: int|
        0 <= j < connectors.len() && (#[trigger] connectors[j]).connected && connectors[j].handle
            == pipes[i].connector by {
        if !lists(connected, pipes[i].connector) {
            assert(rest[i - 1] == pipes[i]);
            assert(gone(rest[i - 1]));
            let k = choose|k: int| 0 <= k < in_rest.len() && in_rest[k] == i - 1;
            assert(at[k] == i);
        }
    }
    at
}

/// A stage and the work that follows are seen as they are.
pub proof fn lemma_reconcile_seen(stage: ReconcileStage, action: ReconcileAction)
    ensures
        match stage {
            ReconcileStage::Scanning { was_dark } => stage@ == (ReconcileModel::Scanning {
                was_dark,
            }),
            ReconcileStage::Electing { was_dark, connected } => stage@ == (
            ReconcileModel::Electing { was_dark, connected: connected@ }),
            ReconcileStage::Adding { was_dark, connected, queue, next } => stage@ == (
            ReconcileModel::Adding {
                was_dark,
                connected: connected@,
                queue: queue@,
                next: next as nat,
            }),
            ReconcileStage::Publishing { was_dark, live } => stage@ == (
            ReconcileModel::Publishing { was_dark, live }),
        },
        match action {
            ReconcileAction::BuildPrimary { handle, requested } => action@ == (
            ReconcileWork::BuildPrimary { handle, requested }),
            ReconcileAction::BuildExtra { handle, requested, .. } => action@ == (
            ReconcileWork::BuildExtra { handle, requested }),
            ReconcileAction::Survey { .. } => action@ == ReconcileWork::Survey,
        },
        stage@.wf() <==> match stage {
            ReconcileStage::Adding { connected, queue, next, .. } => next < queue.len() && forall|
                i: int,
            |
                0 <= i < queue.len() ==> (#[trigger] queue[i]) < connected.len(),
            _ => true,
        },
{
}

/// A scan is dealt with by what it found that is connected; a handle is listed exactly if a
/// connector has it, and driven exactly if a pipe that is driven has it.
pub proof fn lemma_handles<P: Platform>(
    connected: Seq<Connector>,
    pipes: Seq<OutputPipe<P>>,
    handle: u32,
)
    ensures
        lists(connected, handle) <==> exists|i: int|
            0 <= i < connected.len() && (#[trigger] connected[i]).handle == handle,
        drives(pipes, handle) <==> exists|i: int|
            0 <= i < pipes.len() && (#[trigger] pipes[i]).drm_output is Some && pipes[i].connector
                == handle,
{
    if drives(pipes, handle) {
        let i = choose|i: int|
            0 <= i < pipes.len() && (#[trigger] pipes[i]).lit() && pipes[i].connector == handle;
        assert(pipes[i].drm_output is Some);
    }
    if exists|i: int|
        0 <= i < pipes.len() && (#[trigger] pipes[i]).drm_output is Some && pipes[i].connector
            == handle {
        let i = choose|i: int|
            0 <= i < pipes.len() && (#[trigger] pipes[i]).drm_output is Some && pipes[i].connector
                == handle;
        assert(pipes[i].lit());
    }
}

} // verus!
