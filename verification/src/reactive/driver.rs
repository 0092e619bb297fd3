//! Event routing: navigation (carousel-aware, else focus cycling), activation of
//! the focused button, and pointer hit-testing. Each entry point updates the
//! runtime and hands back the handler to run, which the caller owns and runs.
use vstd::prelude::*;
use crate::geometry::{Point, rect_covers};
use super::carousel::{carousel_navved, carousel_nav_inner, carousel_of, carousel_owning, carousel_slot_delta, find_carousel, owns_child, slot_delta};
use super::focus::{button_handler, candidate, focus_cycled, focus_next_inner, focus_prev_inner, handler_of_button};
use super::ids::{EffectId, NodeId};
use super::node::{Kind, Node, is_button, is_carousel};
use super::runtime::{Runtime, id_below, mark_in, mark_opt};

verus! {

/// An input event, already decoded from the hardware.
#[derive(Clone, Copy, PartialEq, Eq, Structural, Debug)]
pub enum UiEvent {
    FocusNext,
    FocusPrev,
    Activate,
    Pointer(Point),
}

/// A source of UI events (buttons, touch, ...). `now_ms` is a monotonic
/// millisecond clock that drives gesture timing and animation pacing.
pub trait EventSource {
    fn poll(&mut self, now_ms: u32) -> Option<UiEvent>;

    fn now_ms(&mut self) -> u32;
}

/// The carousel listing the focused node, if any.
pub open spec fn focus_carousel(rt: &Runtime) -> Option<int> {
    match rt.focus {
        Some(f) => carousel_of(rt.node_seq(), f),
        None => None,
    }
}

/// What a navigation step of `delta` does: inside a carousel it moves the
/// carousel's selection; elsewhere it cycles focus over the buttons, forward for
/// `delta >= 0` and backward otherwise.
pub open spec fn navigated(before: &Runtime, after: &Runtime, delta: int) -> bool {
    match focus_carousel(before) {
        Some(c) => carousel_navved(before, after, c, delta),
        None => focus_cycled(before, after, delta >= 0)
            && after.node_seq() == before.node_seq(),
    }
}

/// Navigate by `delta` rows or buttons.
pub fn nav(rt: &mut Runtime, delta: i32)
    requires
        old(rt).wf(),
    ensures
        final(rt).wf(),
        navigated(&*old(rt), &*final(rt), delta as int),
        final(rt).signals@ == old(rt).signals@,
        final(rt).effects@ == old(rt).effects@,
        final(rt).owners_used@ == old(rt).owners_used@,
        final(rt).current_effect == old(rt).current_effect,
        final(rt).epoch == old(rt).epoch,
        final(rt).nodes.capacity() == old(rt).nodes.capacity(),
        final(rt).dirty.capacity() == old(rt).dirty.capacity(),
{
    match find_carousel(rt) {
        Some(c) => {
            assert(focus_carousel(&*old(rt)) == Some(c.0 as int));
            carousel_nav_inner(rt, c, delta);
        },
        None => {
            assert(focus_carousel(&*old(rt)) is None);
            if delta >= 0 {
                focus_next_inner(rt);
            } else {
                focus_prev_inner(rt);
            }
            assert(focus_cycled(&*old(rt), &*rt, delta >= 0));
            assert(rt.node_seq() == old(rt).node_seq());
        },
    }
}

/// The handler of the focused button, if a button is focused.
pub open spec fn focused_handler(rt: &Runtime) -> Option<EffectId> {
    match rt.focus {
        Some(f) => button_handler(rt.node_seq()[f.0 as int]),
        None => None,
    }
}

/// The handler to run for the focused node: its button handler, or `None` when
/// nothing is focused or the focus is not a button.
pub fn invoke_handler_of_focus(rt: &Runtime) -> (e: Option<EffectId>)
    requires
        rt.wf(),
    ensures
        e == focused_handler(rt),
{
    match rt.focus {
        Some(f) => handler_of_button(rt, f),
        None => None,
    }
}

/// A button whose laid-out bounds contain `p`.
pub open spec fn hit(n: Node, p: Point) -> bool {
    is_button(n) && rect_covers(n.bounds, p.x as int, p.y as int)
}

/// The last of the first `i` nodes that is a button under `p` (the one drawn on
/// top), if any.
pub open spec fn last_hit(nodes: Seq<Node>, p: Point, i: int) -> Option<int>
    decreases i,
{
    if i <= 0 {
        None
    } else if hit(nodes[i - 1], p) {
        Some(i - 1)
    } else {
        last_hit(nodes, p, i - 1)
    }
}

/// A hit among the first `i` nodes is one of them.
proof fn lemma_last_hit(nodes: Seq<Node>, p: Point, i: int)
    ensures
        last_hit(nodes, p, i) matches Some(h) ==> 0 <= h < i && hit(nodes[h], p),
    decreases i,
{
    if i > 0 && !hit(nodes[i - 1], p) {
        lemma_last_hit(nodes, p, i - 1);
    }
}

/// The topmost button under `p`.
pub open spec fn hit_button(rt: &Runtime, p: Point) -> Option<int> {
    last_hit(rt.node_seq(), p, rt.node_count())
}

/// Nothing observable changed: nodes, focus and dirty list are as they were.
pub open spec fn view_unchanged(before: &Runtime, after: &Runtime) -> bool {
    after.node_seq() == before.node_seq() && after.focus == before.focus
        && after.dirty_seq() == before.dirty_seq()
}

/// What a pointer press at `p` does. The topmost button under `p` is the target.
/// A target inside a carousel is scrolled to the centered row when it is on
/// screen off-center (as a navigation step would); a plain target takes focus, and
/// the old and new focus are marked dirty. With no target nothing changes.
pub open spec fn pointer_pressed(before: &Runtime, after: &Runtime, p: Point) -> bool {
    match hit_button(before, p) {
        None => view_unchanged(before, after),
        Some(h) => match carousel_of(before.node_seq(), NodeId(h as u16)) {
            Some(c) => match slot_delta(before.node_seq()[c], NodeId(h as u16)) {
                Some(d) => if d != 0 {
                    carousel_navved(before, after, c, d)
                } else {
                    view_unchanged(before, after)
                },
                None => view_unchanged(before, after),
            },
            None => {
                &&& after.node_seq() == before.node_seq()
                &&& after.focus == Some(NodeId(h as u16))
                &&& after.dirty_seq() == mark_in(
                    mark_opt(before.dirty_seq(), before.focus, before.dirty.capacity()),
                    NodeId(h as u16),
                    before.dirty.capacity(),
                )
            },
        },
    }
}

/// The handler a pointer press at `p` runs: that of the topmost button under it.
pub open spec fn pointer_handler(rt: &Runtime, p: Point) -> Option<EffectId> {
    match hit_button(rt, p) {
        Some(h) => button_handler(rt.node_seq()[h]),
        None => None,
    }
}

/// Hit-test a pointer press at `p` against the laid-out buttons; on overlap the
/// last one (drawn on top) wins. Updates focus or carousel selection and returns
/// the handler to run.
pub fn invoke_handler_at(rt: &mut Runtime, p: Point) -> (e: Option<EffectId>)
    requires
        old(rt).wf(),
    ensures
        final(rt).wf(),
        pointer_pressed(&*old(rt), &*final(rt), p),
        e == pointer_handler(&*old(rt), p),
        final(rt).signals@ == old(rt).signals@,
        final(rt).effects@ == old(rt).effects@,
        final(rt).owners_used@ == old(rt).owners_used@,
        final(rt).current_effect == old(rt).current_effect,
        final(rt).epoch == old(rt).epoch,
        final(rt).nodes.capacity() == old(rt).nodes.capacity(),
        final(rt).dirty.capacity() == old(rt).dirty.capacity(),
{
    let n = rt.nodes.len();
    let mut found: Option<usize> = None;
    let mut i: usize = 0;
    while i < n
        invariant
            i <= n,
            n == rt.node_count(),
            n <= 0x1_0000,
            rt.wf(),
            match last_hit(rt.node_seq(), p, i as int) {
                Some(h) => found == Some(h as usize),
                None => found is None,
            },
        decreases n - i,
    {
        let nd = rt.nodes.get(i);
        let is_btn = match &nd.kind {
            Kind::Button { .. } => true,
            _ => false,
        };
        if is_btn && nd.bounds.contains(p) {
            found = Some(i);
        }
        i = i + 1;
    }
    proof {
        lemma_last_hit(rt.node_seq(), p, n as int);
    }
    let h = match found {
        Some(h) => h,
        None => {
            return None;
        },
    };
    let id = NodeId(h as u16);
    let e = handler_of_button(rt, id);
    match carousel_owning(rt, id) {
        Some(c) => {
            match carousel_slot_delta(rt, c, id) {
                Some(d) => {
                    if d != 0 {
                        carousel_nav_inner(rt, c, d);
                    }
                },
                None => {},
            }
        },
        None => {
            let prev = rt.focus;
            rt.focus = Some(id);
            rt.mark_dirty_opt(prev);
            rt.mark_dirty(id);
        },
    }
    e
}

/// Route an event into the runtime; returns the handler the event runs, if any.
pub fn dispatch(rt: &mut Runtime, ev: UiEvent) -> (e: Option<EffectId>)
    requires
        old(rt).wf(),
    ensures
        final(rt).wf(),
        match ev {
            UiEvent::FocusNext => navigated(&*old(rt), &*final(rt), 1) && e is None,
            UiEvent::FocusPrev => navigated(&*old(rt), &*final(rt), -1) && e is None,
            UiEvent::Activate => *final(rt) == *old(rt) && e == focused_handler(&*old(rt)),
            UiEvent::Pointer(p) => pointer_pressed(&*old(rt), &*final(rt), p)
                && e == pointer_handler(&*old(rt), p),
        },
        final(rt).signals@ == old(rt).signals@,
        final(rt).effects@ == old(rt).effects@,
        final(rt).owners_used@ == old(rt).owners_used@,
        final(rt).current_effect == old(rt).current_effect,
        final(rt).epoch == old(rt).epoch,
        final(rt).nodes.capacity() == old(rt).nodes.capacity(),
        final(rt).dirty.capacity() == old(rt).dirty.capacity(),
{
    match ev {
        UiEvent::FocusNext => {
            nav(rt, 1);
            None
        },
        UiEvent::FocusPrev => {
            nav(rt, -1);
            None
        },
        UiEvent::Activate => invoke_handler_of_focus(rt),
        UiEvent::Pointer(p) => invoke_handler_at(rt, p),
    }
}

/// Of the first `i` nodes, `last_hit` picks a button under `p` with none after
/// it, and finds none exactly when no button is under `p`.
proof fn lemma_last_hit_topmost(nodes: Seq<Node>, p: Point, i: int)
    requires
        0 <= i <= nodes.len(),
    ensures
        match last_hit(nodes, p, i) {
            Some(h) => 0 <= h < i && hit(nodes[h], p) && forall|j: int| h < j < i ==> !#[trigger] hit(nodes[j], p),
            None => forall|j: int| 0 <= j < i ==> !#[trigger] hit(nodes[j], p),
        },
    decreases i,
{
    if i > 0 {
        lemma_last_hit_topmost(nodes, p, i - 1);
    }
}

/// Law: a pointer press targets the topmost button under the point: one under
/// it with no later (drawn-on-top) button also under it.
pub proof fn law_pointer_hits_topmost(rt: &Runtime, p: Point)
    ensures
        match hit_button(rt, p) {
            Some(h) => 0 <= h < rt.node_count() && hit(rt.node_seq()[h], p)
                && forall|j: int| h < j < rt.node_count() ==> !#[trigger] hit(rt.node_seq()[j], p),
            None => forall|j: int| 0 <= j < rt.node_count() ==> !#[trigger] hit(rt.node_seq()[j], p),
        },
{
    lemma_last_hit_topmost(rt.node_seq(), p, rt.node_count());
}

/// Law: a press where no button lies runs no handler and changes neither focus,
/// the nodes nor the dirty list.
pub proof fn law_pointer_miss_changes_nothing(before: &Runtime, after: &Runtime, p: Point)
    requires
        forall|j: int| 0 <= j < before.node_count() ==> !#[trigger] hit(before.node_seq()[j], p),
        pointer_pressed(before, after, p),
    ensures
        view_unchanged(before, after),
        pointer_handler(before, p) is None,
{
    lemma_last_hit_topmost(before.node_seq(), p, before.node_count());
}

/// Law: when focus cycling moves the focus, it lands on a button.
pub proof fn law_focus_lands_on_button(before: &Runtime, after: &Runtime, forward: bool)
    requires
        before.wf(),
        focus_cycled(before, after, forward),
        after.focus != before.focus,
    ensures
        after.focus matches Some(f) && 0 <= f.0 < before.node_count() && is_button(before.node_seq()[f.0 as int]),
{
    let n = before.node_count();
    let nodes = before.node_seq();
    let cur = before.focus;
    before.nodes.lemma_len_le_capacity();
    let off = choose|off: int| {
        &&& 1 <= off <= n
        &&& is_button(#[trigger] nodes[candidate(forward, cur, off, n)])
        &&& forall|o: int| 1 <= o < off ==> !is_button(#[trigger] nodes[candidate(forward, cur, o, n)])
        &&& after.focus == Some(NodeId(candidate(forward, cur, off, n) as u16))
        &&& after.dirty_seq() == mark_in(
            mark_opt(before.dirty_seq(), before.focus, before.dirty.capacity()),
            NodeId(candidate(forward, cur, off, n) as u16),
            before.dirty.capacity(),
        )
    };
    let c = candidate(forward, cur, off, n);
    assert(0 <= c < n) by {
        match cur {
            Some(f) => {
                vstd::arithmetic::div_mod::lemma_mod_pos_bound(f.0 + off, n);
                vstd::arithmetic::div_mod::lemma_mod_pos_bound(f.0 + n - off, n);
            },
            None => {},
        }
    }
}

} // verus!
