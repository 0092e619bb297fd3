//! The retained view tree: node kinds and the builders that append nodes to the
//! runtime's node arena.
use vstd::prelude::*;
use crate::geometry::Rect;
use crate::bounded::{child_list, subscriber_list, text_chars};
use super::ids::{EffectId, NodeId, OwnerId};

verus! {

/// Where a text node's content comes from.
#[derive(Clone, Copy)]
pub enum TextSource {
    Static(&'static str),
    Reactive(EffectId),
}

/// What a node is.
pub enum Kind {
    Text { src: TextSource, content: heapless::String<32> },
    Button { label: &'static str, on_press: EffectId, pressed: bool },
    Column { children: heapless::Vec<NodeId, 8>, spacing: i16 },
    Row { children: heapless::Vec<NodeId, 8>, spacing: i16 },
    Carousel {
        children: heapless::Vec<NodeId, 8>,
        selected: usize,
        offset: usize,
        anim_frame: u8,
        anim_dir: i8,
    },
}

/// A node of the retained tree: its kind, its laid-out absolute bounds, and the
/// scope that owns it.
pub struct Node {
    pub kind: Kind,
    pub bounds: Rect,
    pub owner: OwnerId,
}

/// The children of a container (none for a leaf).
pub open spec fn kind_children(k: Kind) -> Seq<NodeId> {
    match k {
        Kind::Column { children, .. } => child_list(children),
        Kind::Row { children, .. } => child_list(children),
        Kind::Carousel { children, .. } => child_list(children),
        _ => Seq::empty(),
    }
}

pub open spec fn is_button(n: Node) -> bool {
    n.kind is Button
}

pub open spec fn is_carousel(n: Node) -> bool {
    n.kind is Carousel
}

} // verus!

verus! {

use crate::bounded::{
    children_at, children_len, children_new, children_push, text_as_str, text_clear, text_new,
    text_push_str,
};
use vstd::utf8::encode_utf8;
use super::runtime::{EffectSlot, Runtime, id_below, node_wf};
use super::scope::{Scope, has_free_effect};

/// The characters an inline text buffer holds after `push_str(s)` on an empty one:
/// all of `s` when its UTF-8 bytes fit in 32, else nothing.
pub open spec fn stored_text(s: Seq<char>) -> Seq<char> {
    if encode_utf8(s).len() <= 32 { s } else { Seq::empty() }
}

/// There is room for one more node.
pub open spec fn has_node_room(rt: &Runtime) -> bool {
    rt.node_count() < rt.nodes.capacity()
}

/// Everything but the node arena is as before.
pub open spec fn same_except_nodes(a: &Runtime, b: &Runtime) -> bool {
    &&& b.signals@ == a.signals@
    &&& b.effects@ == a.effects@
    &&& b.owners_used@ == a.owners_used@
    &&& b.dirty == a.dirty
    &&& b.current_effect == a.current_effect
    &&& b.focus == a.focus
    &&& b.epoch == a.epoch
}

/// Append a well-formed node; its id is the old node count.
fn append_node(rt: &mut Runtime, node: Node) -> (id: NodeId)
    requires
        old(rt).wf(),
        has_node_room(&*old(rt)),
        node_wf(node, old(rt).node_count(), old(rt).effects@.len() as int),
    ensures
        final(rt).wf(),
        id.0 == old(rt).node_count(),
        final(rt).node_seq() == old(rt).node_seq().push(node),
        final(rt).nodes.capacity() == old(rt).nodes.capacity(),
        same_except_nodes(&*old(rt), &*final(rt)),
{
    let id = rt.push_node(node);
    proof {
        let n0 = old(rt).node_count();
        assert forall|i: int| 0 <= i < rt.node_count() implies node_wf(#[trigger] rt.node_seq()[i], i, rt.effects@.len() as int) by {
            if i < n0 {
                assert(rt.node_seq()[i] == old(rt).node_seq()[i]);
            }
        }
        assert(rt.dirty_seq() == old(rt).dirty_seq());
        assert forall|k: int| 0 <= k < rt.dirty_seq().len() implies id_below(#[trigger] rt.dirty_seq()[k], rt.node_count()) by {
            assert(id_below(old(rt).dirty_seq()[k], n0));
        }
        assert forall|a: int, k: int| 0 <= a < rt.signals@.len() && 0 <= k < subscriber_list(rt.signals@[a].subs).len()
            implies id_below(#[trigger] subscriber_list(rt.signals@[a].subs)[k], rt.node_count()) by {
            assert(id_below(subscriber_list(old(rt).signals@[a].subs)[k], n0));
        }
    }
    id
}

/// A text node showing the fixed string `s` (kept when it fits the 32-byte
/// inline buffer, else empty).
pub fn text_static(cx: Scope, rt: &mut Runtime, s: &'static str) -> (id: NodeId)
    requires
        old(rt).wf(),
        has_node_room(&*old(rt)),
    ensures
        final(rt).wf(),
        id.0 == old(rt).node_count(),
        final(rt).node_count() == old(rt).node_count() + 1,
        forall|i: int| 0 <= i < old(rt).node_count() ==> final(rt).node_seq()[i] == old(rt).node_seq()[i],
        final(rt).node_seq()[id.0 as int].owner == cx.owner,
        final(rt).node_seq()[id.0 as int].kind matches Kind::Text { src, content }
            && src == TextSource::Static(s) && text_chars(content) == stored_text(s@),
        same_except_nodes(&*old(rt), &*final(rt)),
{
    let mut content = text_new();
    let _ = text_push_str(&mut content, s);
    proof {
        assert(Seq::<char>::empty() + s@ == s@);
        assert(encode_utf8(Seq::<char>::empty()).len() == 0);
    }
    append_node(
        rt,
        Node {
            kind: Kind::Text { src: TextSource::Static(s), content },
            bounds: Rect::new(0, 0, 0, 0),
            owner: cx.owner,
        },
    )
}

/// A button labelled `label` whose press runs the handler `on_press`.
pub fn button(cx: Scope, rt: &mut Runtime, label: &'static str, on_press: EffectId) -> (id: NodeId)
    requires
        old(rt).wf(),
        has_node_room(&*old(rt)),
        (on_press.0 as int) < old(rt).effects@.len(),
    ensures
        final(rt).wf(),
        id.0 == old(rt).node_count(),
        final(rt).node_count() == old(rt).node_count() + 1,
        forall|i: int| 0 <= i < old(rt).node_count() ==> final(rt).node_seq()[i] == old(rt).node_seq()[i],
        final(rt).node_seq()[id.0 as int].owner == cx.owner,
        final(rt).node_seq()[id.0 as int].kind == (Kind::Button { label, on_press, pressed: false }),
        same_except_nodes(&*old(rt), &*final(rt)),
{
    append_node(
        rt,
        Node { kind: Kind::Button { label, on_press, pressed: false }, bounds: Rect::new(0, 0, 0, 0), owner: cx.owner },
    )
}

/// A reactive text node: its content is produced by the effect allocated here
/// (held by the caller under the node's effect id) and starts empty.
pub fn text(cx: Scope, rt: &mut Runtime) -> (id: NodeId)
    requires
        old(rt).wf(),
        has_node_room(&*old(rt)),
        has_free_effect(&*old(rt)),
    ensures
        final(rt).wf(),
        id.0 == old(rt).node_count(),
        final(rt).node_count() == old(rt).node_count() + 1,
        forall|i: int| 0 <= i < old(rt).node_count() ==> final(rt).node_seq()[i] == old(rt).node_seq()[i],
        final(rt).node_seq()[id.0 as int].owner == cx.owner,
        final(rt).node_seq()[id.0 as int].kind matches Kind::Text { src, content }
            && src matches TextSource::Reactive(e)
            && super::runtime::first_free_effect(old(rt).effects@, e.0 as int)
            && text_chars(content) == Seq::<char>::empty(),
        final(rt).node_seq()[id.0 as int].kind matches Kind::Text { src: TextSource::Reactive(e), .. }
            && final(rt).effects@ == old(rt).effects@.update(e.0 as int, EffectSlot { owner: cx.owner, in_use: true }),
        final(rt).signals@ == old(rt).signals@,
        final(rt).owners_used@ == old(rt).owners_used@,
        final(rt).dirty == old(rt).dirty,
        final(rt).current_effect == old(rt).current_effect,
        final(rt).focus == old(rt).focus,
        final(rt).epoch == old(rt).epoch,
{
    let eid = cx.handler(rt);
    append_node(
        rt,
        Node {
            kind: Kind::Text { src: TextSource::Reactive(eid), content: text_new() },
            bounds: Rect::new(0, 0, 0, 0),
            owner: cx.owner,
        },
    )
}

/// Fixed-arity child lists, built from tuples of node ids.
pub trait IntoChildren {
    spec fn ids(&self) -> Seq<NodeId>;

    fn collect(self) -> (v: heapless::Vec<NodeId, 8>)
        requires
            self.ids().len() <= 8,
        ensures
            child_list(v) == self.ids(),
    ;
}

impl IntoChildren for (NodeId, NodeId) {
    open spec fn ids(&self) -> Seq<NodeId> {
        seq![self.0, self.1]
    }

    fn collect(self) -> (v: heapless::Vec<NodeId, 8>) {
        let mut v = children_new();
        let _ = children_push(&mut v, self.0);
        let _ = children_push(&mut v, self.1);
        assert(child_list(v) =~= seq![self.0, self.1]);
        v
    }
}

impl IntoChildren for (NodeId, NodeId, NodeId) {
    open spec fn ids(&self) -> Seq<NodeId> {
        seq![self.0, self.1, self.2]
    }

    fn collect(self) -> (v: heapless::Vec<NodeId, 8>) {
        let mut v = children_new();
        let _ = children_push(&mut v, self.0);
        let _ = children_push(&mut v, self.1);
        let _ = children_push(&mut v, self.2);
        assert(child_list(v) =~= seq![self.0, self.1, self.2]);
        v
    }
}

/// The spacing every container builder uses between children, in pixels.
pub const SPACING: i16 = 4;

/// A column stacking `children` top to bottom.
pub fn col<C: IntoChildren>(cx: Scope, rt: &mut Runtime, children: C) -> (id: NodeId)
    requires
        old(rt).wf(),
        has_node_room(&*old(rt)),
        children.ids().len() <= 8,
        forall|k: int| 0 <= k < children.ids().len() ==> id_below(#[trigger] children.ids()[k], old(rt).node_count()),
    ensures
        final(rt).wf(),
        id.0 == old(rt).node_count(),
        final(rt).node_count() == old(rt).node_count() + 1,
        forall|i: int| 0 <= i < old(rt).node_count() ==> final(rt).node_seq()[i] == old(rt).node_seq()[i],
        final(rt).node_seq()[id.0 as int].owner == cx.owner,
        final(rt).node_seq()[id.0 as int].kind matches Kind::Column { children: c, spacing }
            && child_list(c) == children.ids() && spacing == SPACING,
        same_except_nodes(&*old(rt), &*final(rt)),
{
    let v = children.collect();
    append_node(rt, Node { kind: Kind::Column { children: v, spacing: SPACING }, bounds: Rect::new(0, 0, 0, 0), owner: cx.owner })
}

/// A row placing `children` left to right.
pub fn row<C: IntoChildren>(cx: Scope, rt: &mut Runtime, children: C) -> (id: NodeId)
    requires
        old(rt).wf(),
        has_node_room(&*old(rt)),
        children.ids().len() <= 8,
        forall|k: int| 0 <= k < children.ids().len() ==> id_below(#[trigger] children.ids()[k], old(rt).node_count()),
    ensures
        final(rt).wf(),
        id.0 == old(rt).node_count(),
        final(rt).node_count() == old(rt).node_count() + 1,
        forall|i: int| 0 <= i < old(rt).node_count() ==> final(rt).node_seq()[i] == old(rt).node_seq()[i],
        final(rt).node_seq()[id.0 as int].owner == cx.owner,
        final(rt).node_seq()[id.0 as int].kind matches Kind::Row { children: c, spacing }
            && child_list(c) == children.ids() && spacing == SPACING,
        same_except_nodes(&*old(rt), &*final(rt)),
{
    let v = children.collect();
    append_node(rt, Node { kind: Kind::Row { children: v, spacing: SPACING }, bounds: Rect::new(0, 0, 0, 0), owner: cx.owner })
}

/// The number of items a carousel keeps from `n` offered: at most 8.
pub open spec fn kept(n: int) -> int {
    if n <= 8 { n } else { 8 }
}

/// A carousel over `items` (the first 8 are kept), at selection 0.
pub fn carousel(cx: Scope, rt: &mut Runtime, items: &[NodeId]) -> (id: NodeId)
    requires
        old(rt).wf(),
        has_node_room(&*old(rt)),
        forall|k: int| 0 <= k < items@.len() ==> id_below(#[trigger] items@[k], old(rt).node_count()),
    ensures
        final(rt).wf(),
        id.0 == old(rt).node_count(),
        final(rt).node_count() == old(rt).node_count() + 1,
        forall|i: int| 0 <= i < old(rt).node_count() ==> final(rt).node_seq()[i] == old(rt).node_seq()[i],
        final(rt).node_seq()[id.0 as int].owner == cx.owner,
        final(rt).node_seq()[id.0 as int].kind matches Kind::Carousel { children, selected, offset, anim_frame, anim_dir }
            && child_list(children) == items@.take(kept(items@.len() as int))
            && selected == 0 && offset == 0 && anim_frame == 0 && anim_dir == 0,
        same_except_nodes(&*old(rt), &*final(rt)),
{
    let mut children = children_new();
    let mut i: usize = 0;
    while i < items.len()
        invariant
            i <= items@.len(),
            child_list(children) == items@.take(kept(i as int)),
        decreases items@.len() - i,
    {
        let _ = children_push(&mut children, items[i]);
        proof {
            if i < 8 {
                assert(items@.take(kept(i as int)).push(items@[i as int]) =~= items@.take(kept(i + 1)));
            } else {
                assert(kept(i as int) == kept(i + 1));
            }
        }
        i = i + 1;
    }
    append_node(
        rt,
        Node {
            kind: Kind::Carousel { children, selected: 0, offset: 0, anim_frame: 0, anim_dir: 0 },
            bounds: Rect::new(0, 0, 0, 0),
            owner: cx.owner,
        },
    )
}

} // verus!
