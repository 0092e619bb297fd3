//! Focus, carousel navigation and pointer hit-testing over the node tree, plus the
//! bookkeeping that runs a text node's effect.
use vstd::prelude::*;
use crate::bounded::{child_list, children_at, children_clone, children_len, subscriber_list, text_chars, text_clear, text_push_str};
use crate::geometry::{Point, Rect, rect_covers};
use vstd::utf8::encode_utf8;
use super::ids::{EffectId, NodeId};
use super::node::{Kind, Node, TextSource, is_button, is_carousel, kind_children, same_except_nodes};
use super::runtime::{Runtime, id_below, mark_all, mark_in, mark_opt, node_wf};

verus! {

/// How many carousel rows are on screen; the selection sits in the middle one.
pub const VISIBLE: usize = 3;
/// Frames a carousel slide animation lasts.
pub const ANIM_STEPS: u8 = 4;

/// Replace node `i` with a node that is well formed at that index.
fn replace_node(rt: &mut Runtime, i: usize, node: Node)
    requires
        old(rt).wf(),
        (i as int) < old(rt).node_count(),
        node_wf(node, i as int, old(rt).effects@.len() as int),
    ensures
        final(rt).wf(),
        final(rt).node_seq() == old(rt).node_seq().update(i as int, node),
        final(rt).nodes.capacity() == old(rt).nodes.capacity(),
        same_except_nodes(&*old(rt), &*final(rt)),
{
    rt.nodes.set(i, node);
    proof {
        assert forall|j: int| 0 <= j < rt.node_count() implies node_wf(#[trigger] rt.node_seq()[j], j, rt.effects@.len() as int) by {
            if j != i {
                assert(rt.node_seq()[j] == old(rt).node_seq()[j]);
            }
        }
        assert(rt.dirty_seq() == old(rt).dirty_seq());
    }
}

/// Center a carousel on its first item and focus that item. (Focus is cleared
/// when `c` is not a carousel or has no items.)
pub fn carousel_select_first(rt: &mut Runtime, c: NodeId)
    requires
        old(rt).wf(),
        id_below(c, old(rt).node_count()),
    ensures
        final(rt).wf(),
        final(rt).dirty == old(rt).dirty,
        final(rt).signals@ == old(rt).signals@,
        final(rt).effects@ == old(rt).effects@,
        final(rt).node_count() == old(rt).node_count(),
        match old(rt).node_seq()[c.0 as int].kind {
            Kind::Carousel { children, selected, offset, anim_frame, anim_dir } => {
                let n = child_list(children).len();
                &&& final(rt).node_seq()[c.0 as int].kind matches Kind::Carousel { children: c2, selected: s2, offset: o2, anim_frame: f2, anim_dir: d2 }
                    && child_list(c2) == child_list(children) && s2 == 0
                    && o2 == (if n > 0 { n - 1 } else { 0 }) && f2 == anim_frame && d2 == anim_dir
                &&& forall|i: int| 0 <= i < old(rt).node_count() && i != c.0 ==> final(rt).node_seq()[i] == old(rt).node_seq()[i]
                &&& final(rt).focus == (if n > 0 { Some(child_list(children)[0]) } else { None })
            },
            _ => final(rt).node_seq() == old(rt).node_seq() && final(rt).focus is None,
        },
{
    let i = c.0 as usize;
    let nd = rt.nodes.get(i);
    let mut focus: Option<NodeId> = None;
    let mut replacement: Option<Node> = None;
    match &nd.kind {
        Kind::Carousel { children, anim_frame, anim_dir, .. } => {
            let n = children_len(children);
            let offset = if n > 0 { n - 1 } else { 0 };
            if n > 0 {
                focus = Some(children_at(children, 0));
            }
            replacement = Some(Node {
                kind: Kind::Carousel {
                    children: children_clone(children),
                    selected: 0,
                    offset,
                    anim_frame: *anim_frame,
                    anim_dir: *anim_dir,
                },
                bounds: nd.bounds,
                owner: nd.owner,
            });
        },
        _ => {},
    }
    if let Some(node) = replacement {
        replace_node(rt, i, node);
    }
    proof {
        if let Some(f) = focus {
            assert(kind_children(old(rt).node_seq()[i as int].kind)[0] == f);
        }
    }
    rt.focus = focus;
}

/// The effect behind a reactive text node, if `node` is one.
pub open spec fn text_effect(n: Node) -> Option<EffectId> {
    match n.kind {
        Kind::Text { src: TextSource::Reactive(e), .. } => Some(e),
        _ => None,
    }
}

/// The handler a button runs when pressed, if `node` is a button.
pub open spec fn button_handler(n: Node) -> Option<EffectId> {
    match n.kind {
        Kind::Button { on_press, .. } => Some(on_press),
        _ => None,
    }
}

/// The effect that produces `node`'s text, if it is a reactive text node.
pub fn effect_of_text(rt: &Runtime, node: NodeId) -> (e: Option<EffectId>)
    requires
        rt.wf(),
        id_below(node, rt.node_count()),
    ensures
        e == text_effect(rt.node_seq()[node.0 as int]),
{
    match &rt.nodes.get(node.0 as usize).kind {
        Kind::Text { src: TextSource::Reactive(eid), .. } => Some(*eid),
        _ => None,
    }
}

/// The handler `node` runs when pressed, if it is a button.
pub fn handler_of_button(rt: &Runtime, node: NodeId) -> (e: Option<EffectId>)
    requires
        rt.wf(),
        id_below(node, rt.node_count()),
    ensures
        e == button_handler(rt.node_seq()[node.0 as int]),
{
    match &rt.nodes.get(node.0 as usize).kind {
        Kind::Button { on_press, .. } => Some(*on_press),
        _ => None,
    }
}

/// Replace a text node's content with `s` (kept when it fits the 32-byte buffer,
/// else emptied). Other nodes are untouched.
pub fn set_text_content(rt: &mut Runtime, node: NodeId, s: &str)
    requires
        old(rt).wf(),
        id_below(node, old(rt).node_count()),
    ensures
        final(rt).wf(),
        same_except_nodes(&*old(rt), &*final(rt)),
        final(rt).node_count() == old(rt).node_count(),
        forall|i: int| 0 <= i < old(rt).node_count() && i != node.0 ==> final(rt).node_seq()[i] == old(rt).node_seq()[i],
        match old(rt).node_seq()[node.0 as int].kind {
            Kind::Text { src, .. } => final(rt).node_seq()[node.0 as int].kind matches Kind::Text { src: s2, content }
                && s2 == src && text_chars(content) == super::node::stored_text(s@)
                && final(rt).node_seq()[node.0 as int].bounds == old(rt).node_seq()[node.0 as int].bounds
                && final(rt).node_seq()[node.0 as int].owner == old(rt).node_seq()[node.0 as int].owner,
            _ => final(rt).node_seq() == old(rt).node_seq(),
        },
{
    let i = node.0 as usize;
    let nd = rt.nodes.get(i);
    let mut replacement: Option<Node> = None;
    match &nd.kind {
        Kind::Text { src, .. } => {
            let mut content = crate::bounded::text_new();
            let _ = text_push_str(&mut content, s);
            proof {
                assert(Seq::<char>::empty() + s@ == s@);
                assert(encode_utf8(Seq::<char>::empty()).len() == 0);
            }
            replacement = Some(Node { kind: Kind::Text { src: *src, content }, bounds: nd.bounds, owner: nd.owner });
        },
        _ => {},
    }
    if let Some(n) = replacement {
        replace_node(rt, i, n);
    }
}

/// Start running `node`'s effect with dependency tracking: the node becomes the
/// running effect. Returns the effect to run and the previously running one (to
/// hand back to `leave_effect`), or `None` when `node` is not a reactive text.
pub fn enter_effect(rt: &mut Runtime, node: NodeId) -> (r: Option<(EffectId, Option<NodeId>)>)
    requires
        old(rt).wf(),
        id_below(node, old(rt).node_count()),
    ensures
        final(rt).wf(),
        final(rt).nodes == old(rt).nodes,
        final(rt).signals@ == old(rt).signals@,
        final(rt).effects@ == old(rt).effects@,
        final(rt).dirty == old(rt).dirty,
        final(rt).focus == old(rt).focus,
        final(rt).epoch == old(rt).epoch,
        match text_effect(old(rt).node_seq()[node.0 as int]) {
            Some(e) => r == Some((e, old(rt).current_effect)) && final(rt).current_effect == Some(node),
            None => r is None && final(rt).current_effect == old(rt).current_effect,
        },
{
    match effect_of_text(rt, node) {
        Some(e) => {
            let prev = rt.current_effect;
            rt.current_effect = Some(node);
            Some((e, prev))
        },
        None => None,
    }
}

/// Finish running `node`'s effect: store the text it produced and restore the
/// previously running effect.
pub fn leave_effect(rt: &mut Runtime, node: NodeId, prev: Option<NodeId>, s: &str)
    requires
        old(rt).wf(),
        id_below(node, old(rt).node_count()),
        prev matches Some(p) ==> id_below(p, old(rt).node_count()),
    ensures
        final(rt).wf(),
        final(rt).current_effect == prev,
        final(rt).node_count() == old(rt).node_count(),
        forall|i: int| 0 <= i < old(rt).node_count() && i != node.0 ==> final(rt).node_seq()[i] == old(rt).node_seq()[i],
        match old(rt).node_seq()[node.0 as int].kind {
            Kind::Text { src, .. } => final(rt).node_seq()[node.0 as int].kind matches Kind::Text { src: s2, content }
                && s2 == src && text_chars(content) == super::node::stored_text(s@)
                && final(rt).node_seq()[node.0 as int].bounds == old(rt).node_seq()[node.0 as int].bounds
                && final(rt).node_seq()[node.0 as int].owner == old(rt).node_seq()[node.0 as int].owner,
            _ => final(rt).node_seq() == old(rt).node_seq(),
        },
        final(rt).signals@ == old(rt).signals@,
        final(rt).effects@ == old(rt).effects@,
        final(rt).owners_used@ == old(rt).owners_used@,
        final(rt).dirty == old(rt).dirty,
        final(rt).focus == old(rt).focus,
        final(rt).epoch == old(rt).epoch,
{
    set_text_content(rt, node, s);
    rt.current_effect = prev;
}

/// The node tried at step `off` (from 1) when cycling focus forward from `cur`
/// over `n` nodes: the one `off` places after the focus (wrapping), or from the
/// start when nothing is focused.
pub open spec fn next_candidate(cur: Option<NodeId>, off: int, n: int) -> int {
    match cur {
        Some(c) => (c.0 + off) % n,
        None => off - 1,
    }
}

/// The node tried at step `off` when cycling focus backward: `off` places before
/// the focus (wrapping), or from the end when nothing is focused.
pub open spec fn prev_candidate(cur: Option<NodeId>, off: int, n: int) -> int {
    match cur {
        Some(c) => (c.0 + n - off) % n,
        None => n - off,
    }
}

/// The node tried at step `off` when cycling forward or backward.
pub open spec fn candidate(forward: bool, cur: Option<NodeId>, off: int, n: int) -> int {
    if forward { next_candidate(cur, off, n) } else { prev_candidate(cur, off, n) }
}

/// The outcome of cycling focus to the first button reached by `candidate` steps: when
/// some step in `1..=n` reaches a button, the first such button is focused and
/// both the old and the new focus are marked dirty; otherwise nothing changes.
pub open spec fn focus_cycled(before: &Runtime, after: &Runtime, forward: bool) -> bool {
    let n = before.node_count();
    let nodes = before.node_seq();
    let cur = before.focus;
    if exists|off: int| 1 <= off <= n && is_button(#[trigger] nodes[candidate(forward, cur, off, n)]) {
        exists|off: int| {
            &&& 1 <= off <= n
            &&& is_button(#[trigger] nodes[candidate(forward, cur, off, n)])
            &&& forall|o: int| 1 <= o < off ==> !is_button(#[trigger] nodes[candidate(forward, cur, o, n)])
            &&& after.focus == Some(NodeId(candidate(forward, cur, off, n) as u16))
            &&& after.dirty_seq() == mark_in(
                mark_opt(before.dirty_seq(), before.focus, before.dirty.capacity()),
                NodeId(candidate(forward, cur, off, n) as u16),
                before.dirty.capacity(),
            )
        }
    } else {
        after.focus == before.focus && after.dirty_seq() == before.dirty_seq()
    }
}

fn node_is_button(rt: &Runtime, i: usize) -> (b: bool)
    requires
        rt.wf(),
        (i as int) < rt.node_count(),
    ensures
        b == is_button(rt.node_seq()[i as int]),
{
    match &rt.nodes.get(i).kind {
        Kind::Button { .. } => true,
        _ => false,
    }
}

/// Move focus forward to the next button (wrapping), marking the old and new
/// focus dirty.
pub fn focus_next_inner(rt: &mut Runtime)
    requires
        old(rt).wf(),
    ensures
        final(rt).wf(),
        final(rt).nodes == old(rt).nodes,
        final(rt).signals@ == old(rt).signals@,
        final(rt).effects@ == old(rt).effects@,
        final(rt).owners_used@ == old(rt).owners_used@,
        final(rt).current_effect == old(rt).current_effect,
        final(rt).epoch == old(rt).epoch,
        final(rt).dirty.capacity() == old(rt).dirty.capacity(),
        focus_cycled(&*old(rt), &*final(rt), true),
{
    let n = rt.nodes.len();
    if n == 0 {
        return;
    }
    let cur = rt.focus;
    let mut off: usize = 1;
    while off <= n
        invariant
            1 <= off <= n + 1,
            n == rt.node_count(),
            n <= 0x1_0000,
            cur == old(rt).focus,
            *rt == *old(rt),
            rt.wf(),
            forall|o: int| 1 <= o < off ==> !is_button(#[trigger] rt.node_seq()[candidate(true, cur, o, n as int)]),
        decreases n + 1 - off,
    {
        let i = match cur {
            Some(c) => (c.0 as usize + off) % n,
            None => off - 1,
        };
        assert(i == candidate(true, cur, off as int, n as int));
        if node_is_button(rt, i) {
            let new = NodeId(i as u16);
            rt.focus = Some(new);
            rt.mark_dirty_opt(cur);
            rt.mark_dirty(new);
            return;
        }
        off = off + 1;
    }
}

/// Move focus backward to the previous button (wrapping), marking the old and new
/// focus dirty.
pub fn focus_prev_inner(rt: &mut Runtime)
    requires
        old(rt).wf(),
    ensures
        final(rt).wf(),
        final(rt).nodes == old(rt).nodes,
        final(rt).signals@ == old(rt).signals@,
        final(rt).effects@ == old(rt).effects@,
        final(rt).owners_used@ == old(rt).owners_used@,
        final(rt).current_effect == old(rt).current_effect,
        final(rt).epoch == old(rt).epoch,
        final(rt).dirty.capacity() == old(rt).dirty.capacity(),
        focus_cycled(&*old(rt), &*final(rt), false),
{
    let n = rt.nodes.len();
    if n == 0 {
        return;
    }
    let cur = rt.focus;
    let mut off: usize = 1;
    while off <= n
        invariant
            1 <= off <= n + 1,
            n == rt.node_count(),
            n <= 0x1_0000,
            cur == old(rt).focus,
            *rt == *old(rt),
            rt.wf(),
            forall|o: int| 1 <= o < off ==> !is_button(#[trigger] rt.node_seq()[candidate(false, cur, o, n as int)]),
        decreases n + 1 - off,
    {
        let i = match cur {
            Some(c) => (c.0 as usize + n - off) % n,
            None => n - off,
        };
        assert(i == candidate(false, cur, off as int, n as int));
        if node_is_button(rt, i) {
            let new = NodeId(i as u16);
            rt.focus = Some(new);
            rt.mark_dirty_opt(cur);
            rt.mark_dirty(new);
            return;
        }
        off = off + 1;
    }
}

/// `x % n` for `x` within one period either side of `[0, n)`.
proof fn lemma_mod_near(x: int, n: int)
    requires
        n > 0,
        -n <= x < 2 * n,
    ensures
        x % n == (if x < 0 { x + n } else if x < n { x } else { x - n }),
{
    if x < 0 {
        vstd::arithmetic::div_mod::lemma_fundamental_div_mod_converse(x, n, -1, x + n);
    } else if x < n {
        vstd::arithmetic::div_mod::lemma_fundamental_div_mod_converse(x, n, 0, x);
    } else {
        vstd::arithmetic::div_mod::lemma_fundamental_div_mod_converse(x, n, 1, x - n);
    }
}

/// When the first step of a cycle reaches a button, that button is the one focused.
proof fn lemma_first_step_wins(before: &Runtime, after: &Runtime, forward: bool, t: int)
    requires
        focus_cycled(before, after, forward),
        before.node_count() > 0,
        t == candidate(forward, before.focus, 1, before.node_count() as int),
        0 <= t < before.node_count(),
        is_button(before.node_seq()[t]),
    ensures
        after.focus == Some(NodeId(t as u16)),
{
    let n = before.node_count() as int;
    let nodes = before.node_seq();
    let cur = before.focus;
    assert(is_button(nodes[candidate(forward, cur, 1, n)]));
    let off = choose|off: int| {
        &&& 1 <= off <= n
        &&& is_button(#[trigger] nodes[candidate(forward, cur, off, n)])
        &&& forall|o: int| 1 <= o < off ==> !is_button(#[trigger] nodes[candidate(forward, cur, o, n)])
        &&& after.focus == Some(NodeId(candidate(forward, cur, off, n) as u16))
        &&& after.dirty_seq() == mark_in(
            mark_opt(before.dirty_seq(), before.focus, before.dirty.capacity()),
            NodeId(candidate(forward, cur, off, n) as u16),
            before.dirty.capacity(),
        )
    };
    if off > 1 {
        assert(!is_button(nodes[candidate(forward, cur, 1, n)]));
    }
}

/// Law: focus moves back to the button just before the focused node (from the
/// first node, to the last one), and with nothing focused it lands on the last
/// node, whenever that node is a button.
pub proof fn law_focus_prev_steps_back(before: &Runtime, after: &Runtime)
    requires
        before.wf(),
        focus_cycled(before, after, false),
    ensures
        ({
            let (n, nodes) = (before.node_count() as int, before.node_seq());
            &&& before.focus matches Some(c) ==> (c.0 >= 1 && is_button(nodes[c.0 - 1]) ==> after.focus == Some(NodeId((c.0 - 1) as u16)))
            &&& before.focus matches Some(c) ==> (c.0 == 0 && is_button(nodes[n - 1]) ==> after.focus == Some(NodeId((n - 1) as u16)))
            &&& before.focus is None && n > 0 && is_button(nodes[n - 1])
                ==> after.focus == Some(NodeId((n - 1) as u16))
        }),
{
    let n = before.node_count() as int;
    match before.focus {
        Some(c) => {
            assert(id_below(c, before.node_count()));
            lemma_mod_near(c.0 + n - 1, n);
            if c.0 >= 1 && is_button(before.node_seq()[c.0 - 1]) {
                lemma_first_step_wins(before, after, false, c.0 - 1);
            }
            if c.0 == 0 && is_button(before.node_seq()[n - 1]) {
                lemma_first_step_wins(before, after, false, n - 1);
            }
        },
        None => {
            if n > 0 && is_button(before.node_seq()[n - 1]) {
                lemma_first_step_wins(before, after, false, n - 1);
            }
        },
    }
}

/// Law: focus moves on to the button just after the focused node (from the last
/// node, to the first one), and with nothing focused it lands on the first node,
/// whenever that node is a button.
pub proof fn law_focus_next_steps_forward(before: &Runtime, after: &Runtime)
    requires
        before.wf(),
        focus_cycled(before, after, true),
    ensures
        ({
            let (n, nodes) = (before.node_count() as int, before.node_seq());
            &&& before.focus matches Some(c) ==> (c.0 + 1 < n && is_button(nodes[c.0 + 1]) ==> after.focus == Some(NodeId((c.0 + 1) as u16)))
            &&& before.focus matches Some(c) ==> (c.0 + 1 == n && is_button(nodes[0]) ==> after.focus == Some(NodeId(0)))
            &&& before.focus is None && n > 0 && is_button(nodes[0]) ==> after.focus == Some(NodeId(0))
        }),
{
    let n = before.node_count() as int;
    match before.focus {
        Some(c) => {
            assert(id_below(c, before.node_count()));
            lemma_mod_near(c.0 + 1, n);
            if c.0 + 1 < n && is_button(before.node_seq()[c.0 + 1]) {
                lemma_first_step_wins(before, after, true, c.0 + 1);
            }
            if c.0 + 1 == n && is_button(before.node_seq()[0]) {
                lemma_first_step_wins(before, after, true, 0);
            }
        },
        None => {
            if n > 0 && is_button(before.node_seq()[0]) {
                lemma_first_step_wins(before, after, true, 0);
            }
        },
    }
}

/// Law: when every node is a button, moving focus back and then forward returns
/// it to the button it started on.
pub proof fn law_focus_prev_then_next_returns(a: &Runtime, b: &Runtime, c: &Runtime)
    requires
        a.wf(),
        b.wf(),
        focus_cycled(a, b, false),
        b.node_seq() == a.node_seq(),
        focus_cycled(b, c, true),
        a.focus is Some,
        forall|i: int| 0 <= i < a.node_count() ==> is_button(#[trigger] a.node_seq()[i]),
    ensures
        c.focus == a.focus,
{
    let n = a.node_count() as int;
    let f = a.focus->0;
    a.nodes.lemma_len_le_capacity();
    assert(id_below(f, a.node_count()));
    law_focus_prev_steps_back(a, b);
    law_focus_next_steps_forward(b, c);
    assert(b.node_count() == n);
    if f.0 >= 1 {
        assert(is_button(a.node_seq()[f.0 - 1]));
        let g = NodeId((f.0 - 1) as u16);
        assert(b.focus == Some(g));
        assert(g.0 + 1 < n);
        assert(is_button(b.node_seq()[g.0 + 1]));
        assert(c.focus == Some(NodeId((g.0 + 1) as u16)));
        assert(NodeId((g.0 + 1) as u16) == f);
    } else {
        assert(is_button(a.node_seq()[n - 1]));
        let g = NodeId((n - 1) as u16);
        assert(b.focus == Some(g));
        assert(g.0 + 1 == n);
        assert(is_button(b.node_seq()[0]));
        assert(c.focus == Some(NodeId(0)));
        assert(NodeId(0) == f);
    }
}

} // verus!
