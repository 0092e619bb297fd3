//! Carousels: which carousel lists a node, where a listed node sits in the
//! visible window, centered navigation with wrap-around, and the slide animation.
use vstd::prelude::*;
use vstd::arithmetic::div_mod::{lemma_add_mod_noop_right, lemma_mod_multiples_vanish, lemma_sub_mod_noop_right};
use crate::bounded::{child_list, children_at, children_clone, children_len};
use super::ids::NodeId;
use super::node::{Kind, Node, is_carousel, kind_children};
use super::runtime::{Runtime, id_below, mark_all, mark_in, node_wf};
use super::focus::{ANIM_STEPS, VISIBLE};

verus! {

/// `n` is a carousel listing `c` among its items.
pub open spec fn owns_child(n: Node, c: NodeId) -> bool {
    is_carousel(n) && kind_children(n.kind).contains(c)
}

/// The first node at index `i` or later that is a carousel listing `c`.
pub open spec fn owner_from(nodes: Seq<Node>, c: NodeId, i: int) -> Option<int>
    decreases nodes.len() - i,
{
    if i < 0 || i >= nodes.len() {
        None
    } else if owns_child(nodes[i], c) {
        Some(i)
    } else {
        owner_from(nodes, c, i + 1)
    }
}

/// The first carousel (in node order) that lists `c`.
pub open spec fn carousel_of(nodes: Seq<Node>, c: NodeId) -> Option<int> {
    owner_from(nodes, c, 0)
}

/// A carousel whose slide animation is running.
pub open spec fn is_animating(n: Node) -> bool {
    n.kind matches Kind::Carousel { anim_dir, .. } && anim_dir != 0
}

/// A running slide on its last frame: the next step ends it.
pub open spec fn ends_slide(n: Node) -> bool {
    n.kind matches Kind::Carousel { anim_dir, anim_frame, .. } && anim_dir != 0 && anim_frame == 0
}

/// One animation step of a node: a running slide counts its frame down, and on
/// frame 0 stops; every other node is unchanged.
pub open spec fn anim_stepped(n: Node) -> Node {
    match n.kind {
        Kind::Carousel { children, selected, offset, anim_frame, anim_dir } => if anim_dir == 0 {
            n
        } else if anim_frame == 0 {
            Node { kind: Kind::Carousel { children, selected, offset, anim_frame, anim_dir: 0 }, ..n }
        } else {
            Node {
                kind: Kind::Carousel { children, selected, offset, anim_frame: (anim_frame - 1) as u8, anim_dir },
                ..n
            }
        },
        _ => n,
    }
}

/// Does node `i` list `c` as a carousel item?
fn node_lists(rt: &Runtime, i: usize, c: NodeId) -> (b: bool)
    requires
        rt.wf(),
        (i as int) < rt.node_count(),
    ensures
        b == owns_child(rt.node_seq()[i as int], c),
{
    match &rt.nodes.get(i).kind {
        Kind::Carousel { children, .. } => {
            let n = children_len(children);
            let mut k: usize = 0;
            while k < n
                invariant
                    k <= n,
                    n == child_list(*children).len(),
                    is_carousel(rt.node_seq()[i as int]),
                    kind_children(rt.node_seq()[i as int].kind) == child_list(*children),
                    forall|j: int| 0 <= j < k ==> child_list(*children)[j] != c,
                decreases n - k,
            {
                let id = children_at(children, k);
                if id == c {
                    return true;
                }
                k = k + 1;
            }
            false
        },
        _ => false,
    }
}

/// The carousel that lists `node` among its items: the first in node order, or
/// `None` when no carousel lists it.
pub fn carousel_owning(rt: &Runtime, node: NodeId) -> (r: Option<NodeId>)
    requires
        rt.wf(),
    ensures
        match carousel_of(rt.node_seq(), node) {
            Some(k) => 0 <= k < rt.node_count() && (r matches Some(c) && c.0 == k),
            None => r is None,
        },
        r matches Some(c) ==> id_below(c, rt.node_count()) && owns_child(rt.node_seq()[c.0 as int], node),
{
    let n = rt.nodes.len();
    let mut i: usize = 0;
    while i < n
        invariant
            i <= n,
            n == rt.node_count(),
            n <= 0x1_0000,
            rt.wf(),
            owner_from(rt.node_seq(), node, 0) == owner_from(rt.node_seq(), node, i as int),
        decreases n - i,
    {
        if node_lists(rt, i, node) {
            return Some(NodeId(i as u16));
        }
        i = i + 1;
    }
    None
}

/// The carousel that lists the focused node, if any.
pub fn find_carousel(rt: &Runtime) -> (r: Option<NodeId>)
    requires
        rt.wf(),
    ensures
        match rt.focus {
            Some(f) => match carousel_of(rt.node_seq(), f) {
                Some(k) => 0 <= k < rt.node_count() && (r matches Some(c) && c.0 == k),
                None => r is None,
            },
            None => r is None,
        },
        r matches Some(c) ==> id_below(c, rt.node_count()) && is_carousel(rt.node_seq()[c.0 as int]),
{
    match rt.focus {
        Some(f) => carousel_owning(rt, f),
        None => None,
    }
}

/// Is any carousel's slide animation running?
pub fn any_carousel_animating(rt: &Runtime) -> (b: bool)
    requires
        rt.wf(),
    ensures
        b == exists|i: int| 0 <= i < rt.node_count() && is_animating(#[trigger] rt.node_seq()[i]),
{
    let n = rt.nodes.len();
    let mut i: usize = 0;
    while i < n
        invariant
            i <= n,
            n == rt.node_count(),
            rt.wf(),
            forall|j: int| 0 <= j < i ==> !is_animating(#[trigger] rt.node_seq()[j]),
        decreases n - i,
    {
        let running = match &rt.nodes.get(i).kind {
            Kind::Carousel { anim_dir, .. } => *anim_dir != 0,
            _ => false,
        };
        if running {
            return true;
        }
        i = i + 1;
    }
    false
}

/// Advance every running slide by one frame. A slide on frame 0 has drawn its
/// resting frame, so it stops; when any slide stops, the pending repaints are
/// dropped (the slide already painted them).
pub fn step_carousel_anim(rt: &mut Runtime)
    requires
        old(rt).wf(),
    ensures
        final(rt).wf(),
        final(rt).node_count() == old(rt).node_count(),
        forall|i: int| 0 <= i < old(rt).node_count() ==> #[trigger] final(rt).node_seq()[i] == anim_stepped(old(rt).node_seq()[i]),
        final(rt).dirty_seq() == (if exists|i: int| 0 <= i < old(rt).node_count() && ends_slide(#[trigger] old(rt).node_seq()[i]) {
            Seq::<NodeId>::empty()
        } else {
            old(rt).dirty_seq()
        }),
        final(rt).signals@ == old(rt).signals@,
        final(rt).effects@ == old(rt).effects@,
        final(rt).owners_used@ == old(rt).owners_used@,
        final(rt).focus == old(rt).focus,
        final(rt).current_effect == old(rt).current_effect,
        final(rt).epoch == old(rt).epoch,
        final(rt).nodes.capacity() == old(rt).nodes.capacity(),
        final(rt).dirty.capacity() == old(rt).dirty.capacity(),
{
    let n = rt.nodes.len();
    let mut finished = false;
    let mut i: usize = 0;
    while i < n
        invariant
            i <= n,
            n == rt.node_count(),
            n == old(rt).node_count(),
            rt.wf(),
            forall|j: int| 0 <= j < i ==> #[trigger] rt.node_seq()[j] == anim_stepped(old(rt).node_seq()[j]),
            forall|j: int| i <= j < n ==> #[trigger] rt.node_seq()[j] == old(rt).node_seq()[j],
            finished == exists|j: int| 0 <= j < i && ends_slide(#[trigger] old(rt).node_seq()[j]),
            rt.dirty == old(rt).dirty,
            rt.signals@ == old(rt).signals@,
            rt.effects@ == old(rt).effects@,
            rt.owners_used@ == old(rt).owners_used@,
            rt.focus == old(rt).focus,
            rt.current_effect == old(rt).current_effect,
            rt.epoch == old(rt).epoch,
            rt.nodes.capacity() == old(rt).nodes.capacity(),
        decreases n - i,
    {
        let ghost before = rt.node_seq();
        let nd = rt.nodes.get_mut(i);
        match &mut nd.kind {
            Kind::Carousel { anim_frame, anim_dir, .. } => {
                if *anim_dir != 0 {
                    if *anim_frame == 0 {
                        *anim_dir = 0;
                        finished = true;
                    } else {
                        *anim_frame = *anim_frame - 1;
                    }
                }
            },
            _ => {},
        }
        proof {
            assert(rt.node_seq() == before.update(i as int, anim_stepped(before[i as int])));
            assert forall|j: int| 0 <= j < rt.node_count() implies node_wf(#[trigger] rt.node_seq()[j], j, rt.effects@.len() as int) by {
                assert(node_wf(before[j], j, rt.effects@.len() as int));
            }
            assert(rt.dirty_seq() == old(rt).dirty_seq());
        }
        i = i + 1;
    }
    assert(rt.wf());
    assert(forall|j: int| 0 <= j < n ==> #[trigger] rt.node_seq()[j] == anim_stepped(old(rt).node_seq()[j]));
    let ghost mid = rt.nodes;
    if finished {
        rt.dirty.clear();
    }
    assert(rt.nodes == mid);
}

/// The signed distance from the middle visible row to the first of the visible
/// rows, scanned from row `k`, that shows `target` (rows show `ch` cyclically
/// from index `off`).
pub open spec fn slot_from(ch: Seq<NodeId>, off: int, target: NodeId, k: int) -> Option<int>
    decreases VISIBLE - k,
{
    if k < 0 || k >= VISIBLE {
        None
    } else if ch[(off + k) % (ch.len() as int)] == target {
        Some(k - VISIBLE as int / 2)
    } else {
        slot_from(ch, off, target, k + 1)
    }
}

/// How many rows `target` sits below the centered row of carousel `n`'s visible
/// window (negative: above), or `None` when it is not on screen or `n` is not a
/// non-empty carousel.
pub open spec fn slot_delta(n: Node, target: NodeId) -> Option<int> {
    match n.kind {
        Kind::Carousel { children, offset, .. } => if child_list(children).len() == 0 {
            None
        } else {
            slot_from(child_list(children), offset as int, target, 0)
        },
        _ => None,
    }
}

proof fn lemma_slot_from_bounded(ch: Seq<NodeId>, off: int, target: NodeId, k: int)
    ensures
        slot_from(ch, off, target, k) matches Some(d) ==> -(VISIBLE as int / 2) <= d <= VISIBLE as int / 2,
    decreases VISIBLE - k,
{
    if 0 <= k < VISIBLE {
        lemma_slot_from_bounded(ch, off, target, k + 1);
    }
}

/// Only the visible rows of a carousel are on screen, so a row that can be
/// clicked is at most half a window away from the centered selection.
pub proof fn law_click_within_half_window(n: Node, target: NodeId)
    ensures
        slot_delta(n, target) matches Some(d) ==> -(VISIBLE as int / 2) <= d <= VISIBLE as int / 2,
{
    match n.kind {
        Kind::Carousel { children, offset, .. } => {
            lemma_slot_from_bounded(child_list(children), offset as int, target, 0);
        },
        _ => {},
    }
}

proof fn lemma_slot_from_row(ch: Seq<NodeId>, off: int, target: NodeId, k: int)
    requires
        ch.len() > 0,
    ensures
        slot_from(ch, off, target, k) matches Some(d) ==> 0 <= d + VISIBLE as int / 2 < VISIBLE
            && ch[(off + VISIBLE as int / 2 + d) % (ch.len() as int)] == target,
    decreases VISIBLE - k,
{
    if 0 <= k < VISIBLE {
        lemma_slot_from_row(ch, off, target, k + 1);
    }
}

/// Law: a clicked row's delta is its signed distance from the centered row, so
/// the item `d` rows below the center (above, when `d` is negative) is the one
/// clicked; with the selection centered, stepping the selection by that delta
/// selects the clicked item.
pub proof fn law_slot_delta_recenters_on_target(n: Node, target: NodeId)
    ensures
        n.kind matches Kind::Carousel { children, selected, offset, .. } ==> {
            let (ch, len) = (child_list(children), child_list(children).len() as int);
            slot_delta(n, target) matches Some(d) ==> {
                &&& -(VISIBLE as int / 2) <= d <= VISIBLE as int / 2
                &&& ch[(offset + VISIBLE as int / 2 + d) % len] == target
                &&& (0 <= selected < len && offset == (selected + len - 1) % len)
                    ==> ch[stepped_selection(selected as int, d, len)] == target
            }
        },
{
    match n.kind {
        Kind::Carousel { children, selected, offset, .. } => {
            let ch = child_list(children);
            let len = ch.len() as int;
            if len > 0 {
                lemma_slot_from_row(ch, offset as int, target, 0);
                if let Some(d) = slot_delta(n, target) {
                    if 0 <= selected < len && offset == (selected + len - 1) % len {
                        let o = offset as int;
                        let sel = selected as int;
                        let x = sel + len - 1;
                        assert(o == x % len);
                        vstd::arithmetic::div_mod::lemma_add_mod_noop_right(1 + d, x, len);
                        assert((o + VISIBLE as int / 2 + d) % len == ((1 + d) + x) % len);
                        vstd::arithmetic::div_mod::lemma_mod_multiples_vanish(1, sel + d, len);
                        assert((1 + d) + x == len * 1 + (sel + d));
                        assert(stepped_selection(sel, d, len) == (sel + d) % len);
                    }
                }
            }
        },
        _ => {},
    }
}

/// The items on screen when the top row shows index `off`.
pub open spec fn window(ch: Seq<NodeId>, off: int) -> Seq<NodeId> {
    Seq::new(VISIBLE as nat, |k: int| ch[(off + k) % (ch.len() as int)])
}

/// What a navigation step of `delta` rows does to carousel `c`: the selection
/// moves by `delta` with wrap-around and stays in the middle row (the top row
/// shows the item before it), the slide animation is armed in the direction of
/// travel, focus follows the selection and the rows now on screen are marked
/// dirty. A node that is not a non-empty carousel is left as it is.
pub open spec fn carousel_navved(before: &Runtime, after: &Runtime, c: int, delta: int) -> bool {
    let nd = before.node_seq()[c];
    match nd.kind {
        Kind::Carousel { children, selected, .. } => {
            let ch = child_list(children);
            let n = ch.len() as int;
            if n == 0 {
                after.node_seq() == before.node_seq() && after.focus == before.focus
                    && after.dirty_seq() == before.dirty_seq()
            } else {
                let s = stepped_selection(selected as int, delta, n);
                let o = (s + n - 1) % n;
                &&& after.node_count() == before.node_count()
                &&& forall|i: int| 0 <= i < before.node_count() && i != c ==> after.node_seq()[i] == before.node_seq()[i]
                &&& after.node_seq()[c].bounds == nd.bounds
                &&& after.node_seq()[c].owner == nd.owner
                &&& after.node_seq()[c].kind matches Kind::Carousel { children: c2, selected: s2, offset: o2, anim_frame: f2, anim_dir: d2 }
                    && child_list(c2) == ch && s2 == s && o2 == o && f2 == ANIM_STEPS
                    && d2 == (if delta >= 0 { 1i8 } else { -1i8 })
                &&& after.focus == Some(ch[s])
                &&& after.dirty_seq() == mark_all(before.dirty_seq(), window(ch, o), before.dirty.capacity())
            }
        },
        _ => after.node_seq() == before.node_seq() && after.focus == before.focus
            && after.dirty_seq() == before.dirty_seq(),
    }
}

/// Where `target` sits relative to carousel `cnode`'s centered row: the signed row
/// distance when it is on screen, else `None`.
pub fn carousel_slot_delta(rt: &Runtime, cnode: NodeId, target: NodeId) -> (r: Option<i32>)
    requires
        rt.wf(),
        id_below(cnode, rt.node_count()),
    ensures
        match r {
            Some(d) => slot_delta(rt.node_seq()[cnode.0 as int], target) == Some(d as int),
            None => slot_delta(rt.node_seq()[cnode.0 as int], target) is None,
        },
{
    match &rt.nodes.get(cnode.0 as usize).kind {
        Kind::Carousel { children, offset, .. } => {
            let n = children_len(children);
            if n == 0 {
                return None;
            }
            let off = *offset;
            let ghost ch = child_list(*children);
            assert(node_wf(rt.node_seq()[cnode.0 as int], cnode.0 as int, rt.effects@.len() as int));
            let mut k: usize = 0;
            while k < VISIBLE
                invariant
                    k <= VISIBLE,
                    n == ch.len(),
                    0 < n <= 8,
                    off < n,
                    ch == child_list(*children),
                    slot_delta(rt.node_seq()[cnode.0 as int], target) == slot_from(ch, off as int, target, k as int),
                decreases VISIBLE - k,
            {
                let id = children_at(children, (off + k) % n);
                if id == target {
                    return Some(k as i32 - (VISIBLE / 2) as i32);
                }
                k = k + 1;
            }
            None
        },
        _ => None,
    }
}

/// Stepping the selection by the non-negative `step` lands where stepping by
/// `delta` would, when `step` is `delta` reduced into `[0, n)`.
proof fn lemma_wrap_step(sel: int, delta: int, n: int, step: int)
    requires
        0 <= sel < n,
        delta >= 0 ==> step == delta % n,
        delta < 0 ==> step == (n - (-delta) % n) % n,
    ensures
        (sel + step) % n == (sel + delta) % n,
{
    if delta >= 0 {
        lemma_add_mod_noop_right(sel, delta, n);
    } else {
        let a = -delta;
        let m = a % n;
        lemma_add_mod_noop_right(sel, n - m, n);
        lemma_mod_multiples_vanish(1, sel - m, n);
        lemma_sub_mod_noop_right(sel, a, n);
    }
}

/// Move carousel `cnode`'s selection by `delta` rows, wrapping, keeping it
/// centered; arms the slide and marks the visible rows dirty.
pub fn carousel_nav_inner(rt: &mut Runtime, cnode: NodeId, delta: i32)
    requires
        old(rt).wf(),
        id_below(cnode, old(rt).node_count()),
    ensures
        final(rt).wf(),
        carousel_navved(&*old(rt), &*final(rt), cnode.0 as int, delta as int),
        final(rt).signals@ == old(rt).signals@,
        final(rt).effects@ == old(rt).effects@,
        final(rt).owners_used@ == old(rt).owners_used@,
        final(rt).current_effect == old(rt).current_effect,
        final(rt).epoch == old(rt).epoch,
        final(rt).nodes.capacity() == old(rt).nodes.capacity(),
        final(rt).dirty.capacity() == old(rt).dirty.capacity(),
{
    let i = cnode.0 as usize;
    let n = match &rt.nodes.get(i).kind {
        Kind::Carousel { children, .. } => children_len(children),
        _ => 0,
    };
    if n == 0 {
        return;
    }
    let ghost nd0 = rt.node_seq()[i as int];
    let ghost ch = kind_children(nd0.kind);
    assert(node_wf(nd0, i as int, rt.effects@.len() as int));
    let step: usize = if delta >= 0 {
        ((delta as u32) % (n as u32)) as usize
    } else {
        let a: u64 = (0i64 - delta as i64) as u64;
        let m: usize = (a % (n as u64)) as usize;
        (n - m) % n
    };
    let window_ids = match &rt.nodes.get(i).kind {
        Kind::Carousel { children, .. } => children_clone(children),
        _ => crate::bounded::children_new(),
    };
    let mut new_sel: usize = 0;
    let mut new_off: usize = 0;
    let nd = rt.nodes.get_mut(i);
    match &mut nd.kind {
        Kind::Carousel { selected, offset, anim_frame, anim_dir, .. } => {
            new_sel = (*selected + step) % n;
            new_off = (new_sel + n - 1) % n;
            *selected = new_sel;
            *offset = new_off;
            *anim_frame = ANIM_STEPS;
            *anim_dir = if delta >= 0 { 1 } else { -1 };
        },
        _ => {},
    }
    proof {
        lemma_wrap_step(nd0.kind->Carousel_selected as int, delta as int, n as int, step as int);
        assert forall|j: int| 0 <= j < rt.node_count() implies node_wf(#[trigger] rt.node_seq()[j], j, rt.effects@.len() as int) by {
            if j != i {
                assert(rt.node_seq()[j] == old(rt).node_seq()[j]);
            }
        }
        assert(rt.dirty_seq() == old(rt).dirty_seq());
    }
    rt.focus = Some(children_at(&window_ids, new_sel));
    let ghost d0 = rt.dirty_seq();
    let ghost w = window(ch, new_off as int);
    let ghost nodes1 = rt.node_seq();
    let mut k: usize = 0;
    while k < VISIBLE
        invariant
            k <= VISIBLE,
            n == ch.len(),
            0 < n <= 8,
            new_off < n,
            ch == child_list(window_ids),
            w == window(ch, new_off as int),
            (i as int) < rt.node_count(),
            forall|j: int| 0 <= j < ch.len() ==> (#[trigger] ch[j]).0 < i,
            rt.wf(),
            rt.node_seq() == nodes1,
            rt.dirty_seq() == mark_all(d0, w.take(k as int), old(rt).dirty.capacity()),
            rt.dirty.capacity() == old(rt).dirty.capacity(),
            rt.nodes.capacity() == old(rt).nodes.capacity(),
            rt.focus == Some(ch[new_sel as int]),
            rt.signals@ == old(rt).signals@,
            rt.effects@ == old(rt).effects@,
            rt.owners_used@ == old(rt).owners_used@,
            rt.current_effect == old(rt).current_effect,
            rt.epoch == old(rt).epoch,
        decreases VISIBLE - k,
    {
        let id = children_at(&window_ids, (new_off + k) % n);
        proof {
            assert(w.take(k as int + 1).drop_last() == w.take(k as int));
            assert(w.take(k as int + 1).last() == id);
        }
        rt.mark_dirty(id);
        k = k + 1;
    }
    proof {
        assert(w.take(VISIBLE as int) == w);
    }
}

/// The selection a step of `delta` rows moves `sel` to among `n` items.
pub open spec fn stepped_selection(sel: int, delta: int, n: int) -> int {
    (sel + delta) % n
}

/// Law: navigation wraps at both ends. Up from the first item lands on the
/// last; down from the last lands on the first.
pub proof fn law_nav_wraps(n: int)
    requires
        n > 0,
    ensures
        stepped_selection(0, -1, n) == n - 1,
        stepped_selection(n - 1, 1, n) == 0,
{
    vstd::arithmetic::div_mod::lemma_fundamental_div_mod_converse(-1, n, -1, n - 1);
    vstd::arithmetic::div_mod::lemma_fundamental_div_mod_converse(n, n, 1, 0);
}

/// Law: a step down followed by a step up (or up then down) returns to the
/// selection it started from.
pub proof fn law_nav_round_trip(sel: int, n: int)
    requires
        0 <= sel < n,
    ensures
        stepped_selection(stepped_selection(sel, 1, n), -1, n) == sel,
        stepped_selection(stepped_selection(sel, -1, n), 1, n) == sel,
{
    vstd::arithmetic::div_mod::lemma_small_mod(sel as nat, n as nat);
    vstd::arithmetic::div_mod::lemma_add_mod_noop_right(-1, sel + 1, n);
    vstd::arithmetic::div_mod::lemma_add_mod_noop_right(1, sel - 1, n);
}

/// Law: after a navigation step the carousel's selection stays centered (the
/// top row shows the item just before it, wrapping), focus follows the selection,
/// and the slide animation is armed in the direction of travel.
pub proof fn law_nav_centers_and_arms(before: &Runtime, after: &Runtime, c: int, delta: int)
    requires
        0 <= c < before.node_count(),
        kind_children(before.node_seq()[c].kind).len() > 0,
        carousel_navved(before, after, c, delta),
        is_carousel(before.node_seq()[c]),
    ensures
        after.node_seq()[c].kind matches Kind::Carousel { children, selected, offset, anim_frame, anim_dir } && {
            let n = child_list(children).len() as int;
            &&& offset == (selected + n - 1) % n
            &&& after.focus == Some(child_list(children)[selected as int])
            &&& anim_frame == ANIM_STEPS
            &&& anim_dir == (if delta >= 0 { 1i8 } else { -1i8 })
        },
{
}

/// The node after `k` animation steps.
pub open spec fn stepped_n(n: Node, k: nat) -> Node
    decreases k,
{
    if k == 0 { n } else { anim_stepped(stepped_n(n, (k - 1) as nat)) }
}

/// Law: a slide armed with at most `ANIM_STEPS` frames has stopped after
/// `ANIM_STEPS + 1` animation steps, and the rest of the node is untouched.
pub proof fn law_slide_stops(n: Node)
    requires
        n.kind matches Kind::Carousel { anim_frame, .. } && anim_frame <= ANIM_STEPS,
    ensures
        !is_animating(stepped_n(n, (ANIM_STEPS + 1) as nat)),
        stepped_n(n, (ANIM_STEPS + 1) as nat).bounds == n.bounds,
        stepped_n(n, (ANIM_STEPS + 1) as nat).owner == n.owner,
{
    lemma_steps_count_down(n, (ANIM_STEPS + 1) as nat);
}

proof fn lemma_steps_count_down(n: Node, k: nat)
    requires
        n.kind matches Kind::Carousel { anim_frame, .. } && anim_frame <= ANIM_STEPS,
    ensures
        stepped_n(n, k).kind matches Kind::Carousel { anim_frame: f, anim_dir: d, children: c2, selected: s2, offset: o2 }
            && (n.kind matches Kind::Carousel { anim_frame, anim_dir, children, selected, offset }
                && c2 == children && s2 == selected && o2 == offset
                && (if anim_dir == 0 || k > anim_frame {
                    d == 0
                } else {
                    d == anim_dir && f == anim_frame - k
                })),
        stepped_n(n, k).bounds == n.bounds,
        stepped_n(n, k).owner == n.owner,
    decreases k,
{
    if k > 0 {
        lemma_steps_count_down(n, (k - 1) as nat);
    }
}

} // verus!
