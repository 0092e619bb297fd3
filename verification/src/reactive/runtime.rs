//! The runtime: the pools of signals, effects, owners and nodes that the engine
//! works on, borrowed from app-owned `Storage`, plus the dirty list, the focus and
//! the dependency-tracking cursor.
use vstd::prelude::*;
use crate::bounded::{subscriber_list, subscribers_clear, subscribers_new, text_chars, text_new};
use crate::geometry::Rect;
use super::arena::Arena;
use super::ids::{EffectId, NodeId, OwnerId, SignalId};
use super::node::{Kind, Node, TextSource, kind_children};
use super::focus::ANIM_STEPS;
use vstd::set_lib::{lemma_int_range, lemma_len_subset, set_int_range};

verus! {

/// One signal cell: its encoded value, the nodes that read it, its owner, and
/// whether the slot is allocated.
pub struct SignalSlot {
    pub value: u64,
    pub subs: heapless::Vec<NodeId, 4>,
    pub owner: OwnerId,
    pub in_use: bool,
}

/// One effect/handler slot. The closure itself is held by the caller that
/// allocated the slot; the runtime tracks ownership and liveness.
#[derive(Clone, Copy)]
pub struct EffectSlot {
    pub owner: OwnerId,
    pub in_use: bool,
}

pub struct Runtime<'a> {
    pub signals: &'a mut [SignalSlot],
    pub effects: &'a mut [EffectSlot],
    pub owners_used: &'a mut [bool],
    pub nodes: Arena<'a, Node>,
    pub dirty: Arena<'a, NodeId>,
    pub current_effect: Option<NodeId>,
    pub focus: Option<NodeId>,
    pub epoch: u32,
}

/// `o` is the lowest free owner index at or above 1 in `used`.
pub open spec fn first_free_owner(used: Seq<bool>, o: int) -> bool {
    1 <= o < used.len() && !used[o] && forall|j: int| 1 <= j < o ==> used[j]
}

/// `i` is the lowest unallocated signal slot.
pub open spec fn first_free_signal(s: Seq<SignalSlot>, i: int) -> bool {
    0 <= i < s.len() && !s[i].in_use && forall|j: int| 0 <= j < i ==> s[j].in_use
}

/// `i` is the lowest unallocated effect slot.
pub open spec fn first_free_effect(e: Seq<EffectSlot>, i: int) -> bool {
    0 <= i < e.len() && !e[i].in_use && forall|j: int| 0 <= j < i ==> e[j].in_use
}

/// The signal slot after its owner was freed: unallocated, no subscribers.
pub open spec fn signal_freed(before: SignalSlot, after: SignalSlot) -> bool {
    !after.in_use && subscriber_list(after.subs) == Seq::<NodeId>::empty()
        && after.owner == before.owner && after.value == before.value
}

/// `n` names one of the first `len` nodes.
pub open spec fn id_below(n: NodeId, len: int) -> bool {
    (n.0 as int) < len
}

/// A node's internal references point at earlier nodes and live effect slots, and
/// a carousel's cursors lie within its children and its slide is a direction
/// (-1, 0 or 1) with at most `ANIM_STEPS` frames left.
pub open spec fn node_wf(n: Node, index: int, n_effects: int) -> bool {
    &&& forall|k: int| 0 <= k < kind_children(n.kind).len() ==> (#[trigger] kind_children(n.kind)[k]).0 < index
    &&& match n.kind {
        Kind::Button { on_press, .. } => (on_press.0 as int) < n_effects,
        Kind::Text { src, .. } => src matches TextSource::Reactive(e) ==> (e.0 as int) < n_effects,
        Kind::Column { .. } => true,
        Kind::Row { .. } => true,
        Kind::Carousel { children, selected, offset, anim_frame, anim_dir } =>
            (kind_children(n.kind).len() > 0 ==> selected < kind_children(n.kind).len()
                && offset < kind_children(n.kind).len())
            && -1 <= anim_dir <= 1 && anim_frame <= ANIM_STEPS,
    }
}

/// What marking `n` dirty does to a dirty list of capacity `cap`: nothing when it
/// is already listed or the list is full, else `n` is appended.
pub open spec fn mark_in(d: Seq<NodeId>, n: NodeId, cap: nat) -> Seq<NodeId> {
    if d.contains(n) || d.len() >= cap { d } else { d.push(n) }
}

/// What marking each of `subs` dirty in turn does to the dirty list `d`.
pub open spec fn mark_all(d: Seq<NodeId>, subs: Seq<NodeId>, cap: nat) -> Seq<NodeId>
    decreases subs.len(),
{
    if subs.len() == 0 {
        d
    } else {
        mark_in(mark_all(d, subs.drop_last(), cap), subs.last(), cap)
    }
}

/// Marking an optional node: nothing for `None`.
pub open spec fn mark_opt(d: Seq<NodeId>, n: Option<NodeId>, cap: nat) -> Seq<NodeId> {
    match n {
        Some(x) => mark_in(d, x, cap),
        None => d,
    }
}

impl<'a> Runtime<'a> {
    pub open spec fn node_seq(&self) -> Seq<Node> {
        self.nodes.live()
    }

    pub open spec fn dirty_seq(&self) -> Seq<NodeId> {
        self.dirty.live()
    }

    pub open spec fn node_count(&self) -> int {
        self.nodes.live().len() as int
    }

    /// The runtime's structural invariant: ids fit their `u16` handles, every
    /// stored node id and effect id is live, the node tree is acyclic (children are
    /// older than their parent), and the dirty list holds distinct live nodes with
    /// room for every node.
    pub open spec fn wf(&self) -> bool {
        &&& self.nodes.wf()
        &&& self.dirty.wf()
        &&& self.nodes.capacity() == self.dirty.capacity()
        &&& self.nodes.capacity() <= 0x1_0000
        &&& self.signals@.len() <= 0x1_0000
        &&& self.effects@.len() <= 0x1_0000
        &&& self.owners_used@.len() <= 0x1_0000
        &&& forall|i: int| 0 <= i < self.node_count() ==> node_wf(#[trigger] self.node_seq()[i], i, self.effects@.len() as int)
        &&& self.dirty_seq().no_duplicates()
        &&& forall|k: int| 0 <= k < self.dirty_seq().len() ==> id_below(#[trigger] self.dirty_seq()[k], self.node_count())
        &&& self.focus matches Some(f) ==> id_below(f, self.node_count())
        &&& self.current_effect matches Some(c) ==> id_below(c, self.node_count())
        &&& forall|i: int, k: int| 0 <= i < self.signals@.len() && 0 <= k < subscriber_list(self.signals@[i].subs).len()
            ==> id_below(#[trigger] subscriber_list(self.signals@[i].subs)[k], self.node_count())
    }

    /// Append `node` to the node arena; its id is its index.
    pub fn push_node(&mut self, node: Node) -> (id: NodeId)
        requires
            old(self).nodes.wf(),
            old(self).node_count() < old(self).nodes.capacity(),
            old(self).nodes.capacity() <= 0x1_0000,
        ensures
            id.0 == old(self).node_count(),
            final(self).nodes.wf(),
            final(self).nodes.capacity() == old(self).nodes.capacity(),
            final(self).node_seq() == old(self).node_seq().push(node),
            final(self).signals@ == old(self).signals@,
            final(self).effects@ == old(self).effects@,
            final(self).owners_used@ == old(self).owners_used@,
            final(self).dirty == old(self).dirty,
            final(self).current_effect == old(self).current_effect,
            final(self).focus == old(self).focus,
            final(self).epoch == old(self).epoch,
    {
        let id = NodeId(self.nodes.len() as u16);
        let _ = self.nodes.push(node);
        id
    }

    /// Allocate the lowest free signal slot to `owner`, holding `value`.
    pub fn alloc_signal(&mut self, owner: OwnerId, value: u64) -> (id: SignalId)
        requires
            old(self).signals@.len() <= 0x1_0000,
            exists|i: int| 0 <= i < old(self).signals@.len() && !old(self).signals@[i].in_use,
        ensures
            first_free_signal(old(self).signals@, id.0 as int),
            final(self).signals@.len() == old(self).signals@.len(),
            forall|i: int| 0 <= i < old(self).signals@.len() && i != id.0 ==> final(self).signals@[i] == old(self).signals@[i],
            final(self).signals@[id.0 as int].in_use,
            final(self).signals@[id.0 as int].owner == owner,
            final(self).signals@[id.0 as int].value == value,
            subscriber_list(final(self).signals@[id.0 as int].subs) == Seq::<NodeId>::empty(),
            final(self).effects@ == old(self).effects@,
            final(self).owners_used@ == old(self).owners_used@,
            final(self).nodes == old(self).nodes,
            final(self).dirty == old(self).dirty,
            final(self).current_effect == old(self).current_effect,
            final(self).focus == old(self).focus,
            final(self).epoch == old(self).epoch,
    {
        let mut i: usize = 0;
        while i < self.signals.len()
            invariant
                i <= self.signals@.len(),
                self.signals@.len() <= 0x1_0000,
                self.signals@ == old(self).signals@,
                forall|j: int| 0 <= j < i ==> self.signals@[j].in_use,
                exists|k: int| i <= k < self.signals@.len() && !self.signals@[k].in_use,
                self.effects@ == old(self).effects@,
                self.owners_used@ == old(self).owners_used@,
                self.nodes == old(self).nodes,
                self.dirty == old(self).dirty,
                self.current_effect == old(self).current_effect,
                self.focus == old(self).focus,
                self.epoch == old(self).epoch,
            decreases self.signals@.len() - i,
        {
            if !self.signals[i].in_use {
                let slot = &mut self.signals[i];
                slot.in_use = true;
                slot.owner = owner;
                slot.value = value;
                subscribers_clear(&mut slot.subs);
                return SignalId(i as u16);
            }
            i = i + 1;
        }
        SignalId(0)
    }

    /// Allocate the lowest free effect slot to `owner`.
    pub fn alloc_effect(&mut self, owner: OwnerId) -> (id: EffectId)
        requires
            old(self).effects@.len() <= 0x1_0000,
            exists|i: int| 0 <= i < old(self).effects@.len() && !old(self).effects@[i].in_use,
        ensures
            first_free_effect(old(self).effects@, id.0 as int),
            final(self).effects@ == old(self).effects@.update(id.0 as int, EffectSlot { owner, in_use: true }),
            final(self).signals@ == old(self).signals@,
            final(self).owners_used@ == old(self).owners_used@,
            final(self).nodes == old(self).nodes,
            final(self).dirty == old(self).dirty,
            final(self).current_effect == old(self).current_effect,
            final(self).focus == old(self).focus,
            final(self).epoch == old(self).epoch,
    {
        let mut i: usize = 0;
        while i < self.effects.len()
            invariant
                i <= self.effects@.len(),
                self.effects@.len() <= 0x1_0000,
                self.effects@ == old(self).effects@,
                forall|j: int| 0 <= j < i ==> self.effects@[j].in_use,
                exists|k: int| i <= k < self.effects@.len() && !self.effects@[k].in_use,
                self.signals@ == old(self).signals@,
                self.owners_used@ == old(self).owners_used@,
                self.nodes == old(self).nodes,
                self.dirty == old(self).dirty,
                self.current_effect == old(self).current_effect,
                self.focus == old(self).focus,
                self.epoch == old(self).epoch,
            decreases self.effects@.len() - i,
        {
            if !self.effects[i].in_use {
                self.effects[i] = EffectSlot { owner, in_use: true };
                return EffectId(i as u16);
            }
            i = i + 1;
        }
        EffectId(0)
    }

    /// Queue `n` for repaint when it is `Some`.
    pub fn mark_dirty_opt(&mut self, n: Option<NodeId>)
        requires
            old(self).dirty.wf(),
        ensures
            final(self).dirty.wf(),
            final(self).dirty.capacity() == old(self).dirty.capacity(),
            final(self).dirty_seq() == mark_opt(old(self).dirty_seq(), n, old(self).dirty.capacity()),
            old(self).wf() && (n matches Some(x) ==> id_below(x, old(self).node_count())) ==> final(self).wf(),
            final(self).signals@ == old(self).signals@,
            final(self).effects@ == old(self).effects@,
            final(self).owners_used@ == old(self).owners_used@,
            final(self).nodes == old(self).nodes,
            final(self).current_effect == old(self).current_effect,
            final(self).focus == old(self).focus,
            final(self).epoch == old(self).epoch,
    {
        if let Some(x) = n {
            self.mark_dirty(x);
        }
    }

    /// Is `n` in the dirty list?
    pub fn is_dirty(&self, n: NodeId) -> (b: bool)
        requires
            self.dirty.wf(),
        ensures
            b == self.dirty_seq().contains(n),
    {
        let d = self.dirty.as_slice();
        let mut i: usize = 0;
        while i < d.len()
            invariant
                i <= d@.len(),
                d@ == self.dirty_seq(),
                forall|j: int| 0 <= j < i ==> d@[j] != n,
            decreases d@.len() - i,
        {
            if d[i].0 == n.0 {
                assert(d@[i as int] == n);
                return true;
            }
            i = i + 1;
        }
        false
    }

    /// Queue `n` for repaint (idempotent).
    pub fn mark_dirty(&mut self, n: NodeId)
        requires
            old(self).dirty.wf(),
        ensures
            final(self).dirty.wf(),
            final(self).dirty.capacity() == old(self).dirty.capacity(),
            final(self).dirty_seq() == mark_in(old(self).dirty_seq(), n, old(self).dirty.capacity()),
            old(self).wf() && id_below(n, old(self).node_count()) ==> final(self).wf(),
            final(self).signals@ == old(self).signals@,
            final(self).effects@ == old(self).effects@,
            final(self).owners_used@ == old(self).owners_used@,
            final(self).nodes == old(self).nodes,
            final(self).current_effect == old(self).current_effect,
            final(self).focus == old(self).focus,
            final(self).epoch == old(self).epoch,
    {
        proof {
            assert(self.node_seq() == old(self).node_seq());
        }
        if !self.is_dirty(n) {
            let _ = self.dirty.push(n);
            proof {
                let d = old(self).dirty_seq();
                assert(self.node_seq() == old(self).node_seq());
                if old(self).wf() && id_below(n, old(self).node_count()) && d.len() < self.dirty.capacity() {
                    assert forall|k: int| 0 <= k < self.dirty_seq().len() implies id_below(
                        #[trigger] self.dirty_seq()[k],
                        self.node_count(),
                    ) by {
                        if k < d.len() {
                            assert(self.dirty_seq()[k] == d[k]);
                        }
                    }
                    assert forall|a: int, b: int| 0 <= a < b < self.dirty_seq().len() implies self.dirty_seq()[a] != self.dirty_seq()[b] by {
                        if b == d.len() {
                            assert(self.dirty_seq()[a] == d[a]);
                            assert(d.contains(d[a]));
                        }
                    }
                }
            }
        }
    }

    /// Return every pool to empty and clear the cursors: no signal, handler or
    /// owner allocated (owners reset to the reserved tag 0), no nodes, nothing
    /// dirty, no focus, epoch 0.
    pub fn reset(&mut self)
        requires
            old(self).wf(),
        ensures
            final(self).wf(),
            final(self).signals@.len() == old(self).signals@.len(),
            forall|i: int| 0 <= i < old(self).signals@.len() ==> {
                let sl = #[trigger] final(self).signals@[i];
                !sl.in_use && sl.owner == OwnerId(0) && subscriber_list(sl.subs) == Seq::<NodeId>::empty()
            },
            final(self).effects@.len() == old(self).effects@.len(),
            forall|i: int| 0 <= i < old(self).effects@.len() ==> #[trigger] final(self).effects@[i] == (EffectSlot { owner: OwnerId(0), in_use: false }),
            final(self).owners_used@.len() == old(self).owners_used@.len(),
            forall|i: int| 0 <= i < old(self).owners_used@.len() ==> !#[trigger] final(self).owners_used@[i],
            final(self).node_seq() == Seq::<Node>::empty(),
            final(self).dirty_seq() == Seq::<NodeId>::empty(),
            final(self).nodes.capacity() == old(self).nodes.capacity(),
            final(self).dirty.capacity() == old(self).dirty.capacity(),
            final(self).current_effect is None,
            final(self).focus is None,
            final(self).epoch == 0,
    {
        let mut i: usize = 0;
        while i < self.signals.len()
            invariant
                i <= self.signals@.len(),
                self.signals@.len() == old(self).signals@.len(),
                forall|j: int| 0 <= j < i ==> {
                    let sl = #[trigger] self.signals@[j];
                    !sl.in_use && sl.owner == OwnerId(0) && subscriber_list(sl.subs) == Seq::<NodeId>::empty()
                },
                self.effects@ == old(self).effects@,
                self.owners_used@ == old(self).owners_used@,
                self.nodes == old(self).nodes,
                self.dirty == old(self).dirty,
            decreases self.signals@.len() - i,
        {
            let slot = &mut self.signals[i];
            slot.in_use = false;
            slot.owner = OwnerId(0);
            subscribers_clear(&mut slot.subs);
            i = i + 1;
        }
        let mut k: usize = 0;
        while k < self.effects.len()
            invariant
                k <= self.effects@.len(),
                self.effects@.len() == old(self).effects@.len(),
                forall|j: int| 0 <= j < k ==> #[trigger] self.effects@[j] == (EffectSlot { owner: OwnerId(0), in_use: false }),
                self.signals@.len() == old(self).signals@.len(),
                forall|j: int| 0 <= j < self.signals@.len() ==> {
                    let sl = #[trigger] self.signals@[j];
                    !sl.in_use && sl.owner == OwnerId(0) && subscriber_list(sl.subs) == Seq::<NodeId>::empty()
                },
                self.owners_used@ == old(self).owners_used@,
                self.nodes == old(self).nodes,
                self.dirty == old(self).dirty,
            decreases self.effects@.len() - k,
        {
            self.effects[k] = EffectSlot { owner: OwnerId(0), in_use: false };
            k = k + 1;
        }
        let mut o: usize = 0;
        while o < self.owners_used.len()
            invariant
                o <= self.owners_used@.len(),
                self.owners_used@.len() == old(self).owners_used@.len(),
                forall|j: int| 0 <= j < o ==> !#[trigger] self.owners_used@[j],
                self.effects@.len() == old(self).effects@.len(),
                forall|j: int| 0 <= j < self.effects@.len() ==> #[trigger] self.effects@[j] == (EffectSlot { owner: OwnerId(0), in_use: false }),
                self.signals@.len() == old(self).signals@.len(),
                forall|j: int| 0 <= j < self.signals@.len() ==> {
                    let sl = #[trigger] self.signals@[j];
                    !sl.in_use && sl.owner == OwnerId(0) && subscriber_list(sl.subs) == Seq::<NodeId>::empty()
                },
                self.nodes == old(self).nodes,
                self.dirty == old(self).dirty,
            decreases self.owners_used@.len() - o,
        {
            self.owners_used[o] = false;
            o = o + 1;
        }
        self.nodes.clear();
        self.dirty.clear();
        self.current_effect = None;
        self.focus = None;
        self.epoch = 0;
    }

    /// Hand out the lowest free owner tag (tag 0 is reserved as "no owner").
    pub fn alloc_owner(&mut self) -> (o: OwnerId)
        requires
            old(self).owners_used@.len() <= 0x1_0000,
            exists|i: int| 1 <= i < old(self).owners_used@.len() && !old(self).owners_used@[i],
        ensures
            first_free_owner(old(self).owners_used@, o.0 as int),
            final(self).owners_used@ == old(self).owners_used@.update(o.0 as int, true),
            final(self).signals@ == old(self).signals@,
            final(self).effects@ == old(self).effects@,
            final(self).nodes == old(self).nodes,
            final(self).dirty == old(self).dirty,
            final(self).current_effect == old(self).current_effect,
            final(self).focus == old(self).focus,
            final(self).epoch == old(self).epoch,
    {
        let mut i: usize = 1;
        while i < self.owners_used.len()
            invariant
                1 <= i <= self.owners_used@.len(),
                self.owners_used@.len() <= 0x1_0000,
                self.owners_used@ == old(self).owners_used@,
                self.signals@ == old(self).signals@,
                self.effects@ == old(self).effects@,
                self.nodes == old(self).nodes,
                self.dirty == old(self).dirty,
                self.current_effect == old(self).current_effect,
                self.focus == old(self).focus,
                self.epoch == old(self).epoch,
                forall|j: int| 1 <= j < i ==> self.owners_used@[j],
                exists|k: int| i <= k < self.owners_used@.len() && !self.owners_used@[k],
            decreases self.owners_used@.len() - i,
        {
            if !self.owners_used[i] {
                self.owners_used[i] = true;
                return OwnerId(i as u16);
            }
            i = i + 1;
        }
        OwnerId(0)
    }

    /// Free everything an owner holds: its signals and effects become unallocated
    /// and its tag is released. Nodes are append-only and stay.
    pub fn free_owner(&mut self, o: OwnerId)
        requires
            (o.0 as int) < old(self).owners_used@.len(),
        ensures
            final(self).signals@.len() == old(self).signals@.len(),
            forall|i: int| 0 <= i < old(self).signals@.len() ==> {
                let (b, a) = (#[trigger] old(self).signals@[i], final(self).signals@[i]);
                if b.in_use && b.owner == o { signal_freed(b, a) } else { a == b }
            },
            final(self).effects@.len() == old(self).effects@.len(),
            forall|i: int| 0 <= i < old(self).effects@.len() ==> {
                let (b, a) = (#[trigger] old(self).effects@[i], final(self).effects@[i]);
                if b.in_use && b.owner == o { a == (EffectSlot { in_use: false, ..b }) } else { a == b }
            },
            final(self).owners_used@ == old(self).owners_used@.update(o.0 as int, false),
            final(self).nodes == old(self).nodes,
            final(self).dirty == old(self).dirty,
            final(self).current_effect == old(self).current_effect,
            final(self).focus == old(self).focus,
            final(self).epoch == old(self).epoch,
    {
        let mut i: usize = 0;
        while i < self.signals.len()
            invariant
                i <= self.signals@.len(),
                self.signals@.len() == old(self).signals@.len(),
                forall|j: int| 0 <= j < i ==> {
                    let (b, a) = (#[trigger] old(self).signals@[j], self.signals@[j]);
                    if b.in_use && b.owner == o { signal_freed(b, a) } else { a == b }
                },
                forall|j: int| i <= j < self.signals@.len() ==> self.signals@[j] == old(self).signals@[j],
                self.effects@ == old(self).effects@,
                self.owners_used@ == old(self).owners_used@,
                self.nodes == old(self).nodes,
                self.dirty == old(self).dirty,
                self.current_effect == old(self).current_effect,
                self.focus == old(self).focus,
                self.epoch == old(self).epoch,
            decreases self.signals@.len() - i,
        {
            if self.signals[i].in_use && self.signals[i].owner == o {
                let slot = &mut self.signals[i];
                slot.in_use = false;
                subscribers_clear(&mut slot.subs);
            }
            i = i + 1;
        }
        let mut k: usize = 0;
        while k < self.effects.len()
            invariant
                k <= self.effects@.len(),
                self.effects@.len() == old(self).effects@.len(),
                forall|j: int| 0 <= j < k ==> {
                    let (b, a) = (#[trigger] old(self).effects@[j], self.effects@[j]);
                    if b.in_use && b.owner == o { a == (EffectSlot { in_use: false, ..b }) } else { a == b }
                },
                forall|j: int| k <= j < self.effects@.len() ==> self.effects@[j] == old(self).effects@[j],
                self.signals@.len() == old(self).signals@.len(),
                forall|j: int| 0 <= j < self.signals@.len() ==> {
                    let (b, a) = (#[trigger] old(self).signals@[j], self.signals@[j]);
                    if b.in_use && b.owner == o { signal_freed(b, a) } else { a == b }
                },
                self.owners_used@ == old(self).owners_used@,
                self.nodes == old(self).nodes,
                self.dirty == old(self).dirty,
                self.current_effect == old(self).current_effect,
                self.focus == old(self).focus,
                self.epoch == old(self).epoch,
            decreases self.effects@.len() - k,
        {
            if self.effects[k].in_use && self.effects[k].owner == o {
                let e = self.effects[k];
                self.effects[k] = EffectSlot { in_use: false, ..e };
            }
            k = k + 1;
        }
        self.owners_used[o.0 as usize] = false;
    }
}

} // verus!

verus! {

/// A list of distinct live node ids that misses a live node is shorter than the
/// node count, so marking that node dirty never meets a full list.
pub proof fn lemma_dirty_has_room(d: Seq<NodeId>, n: NodeId, len: int)
    requires
        d.no_duplicates(),
        forall|k: int| 0 <= k < d.len() ==> id_below(#[trigger] d[k], len),
        id_below(n, len),
        !d.contains(n),
    ensures
        d.len() < len,
{
    let ids = d.map_values(|x: NodeId| x.0 as int);
    assert forall|i: int, j: int| 0 <= i < ids.len() && 0 <= j < ids.len() && i != j implies ids[i] != ids[j] by {
        assert(d[i] != d[j]);
    }
    assert(ids.no_duplicates());
    ids.unique_seq_to_set();
    let range = set_int_range(0, len).remove(n.0 as int);
    lemma_int_range(0, len);
    assert forall|v: int| ids.to_set().contains(v) implies range.contains(v) by {
        let k = choose|k: int| 0 <= k < ids.len() && ids[k] == v;
        assert(d[k].0 == v);
        if v == n.0 {
            assert(d[k] == n);
        }
    }
    lemma_len_subset(ids.to_set(), range);
}


/// Marking live nodes one after another into a list of distinct live nodes that
/// has room for every node keeps it distinct and live, keeps what it held, and
/// ends with every marked node listed.
pub proof fn lemma_mark_all_marks(d: Seq<NodeId>, subs: Seq<NodeId>, cap: nat, len: int)
    requires
        d.no_duplicates(),
        forall|k: int| 0 <= k < d.len() ==> id_below(#[trigger] d[k], len),
        forall|k: int| 0 <= k < subs.len() ==> id_below(#[trigger] subs[k], len),
        len <= cap,
    ensures
        mark_all(d, subs, cap).no_duplicates(),
        forall|k: int| 0 <= k < mark_all(d, subs, cap).len() ==> id_below(#[trigger] mark_all(d, subs, cap)[k], len),
        forall|x: NodeId| d.contains(x) ==> #[trigger] mark_all(d, subs, cap).contains(x),
        forall|k: int| 0 <= k < subs.len() ==> mark_all(d, subs, cap).contains(#[trigger] subs[k]),
    decreases subs.len(),
{
    if subs.len() > 0 {
        let rest = subs.drop_last();
        lemma_mark_all_marks(d, rest, cap, len);
        let m = mark_all(d, rest, cap);
        let x = subs.last();
        assert(id_below(x, len));
        if !m.contains(x) {
            lemma_dirty_has_room(m, x, len);
            assert(m.push(x).no_duplicates()) by {
                assert forall|a: int, b: int| 0 <= a < b < m.push(x).len() implies m.push(x)[a] != m.push(x)[b] by {
                    if b == m.len() {
                        assert(m.contains(m[a]));
                    }
                }
            }
            assert forall|k: int| 0 <= k < m.push(x).len() implies id_below(#[trigger] m.push(x)[k], len) by {
                if k < m.len() {
                    assert(m.push(x)[k] == m[k]);
                }
            }
            assert forall|y: NodeId| m.contains(y) implies #[trigger] m.push(x).contains(y) by {
                let k = choose|k: int| 0 <= k < m.len() && m[k] == y;
                assert(m.push(x)[k] == y);
            }
            assert(m.push(x)[m.len() as int] == x);
        }
        assert forall|k: int| 0 <= k < subs.len() implies mark_all(d, subs, cap).contains(#[trigger] subs[k]) by {
            if k < rest.len() {
                assert(subs[k] == rest[k]);
                assert(m.contains(rest[k]));
            }
        }
    }
}

} // verus!

verus! {

/// Fixed-capacity backing storage for a runtime: `NS` signals, `NN` nodes (which
/// also bounds the dirty list), `NE` effects and `NO` owners. The app owns it and
/// hands the engine a borrow through [`install`].
pub struct Storage<const NS: usize, const NN: usize, const NE: usize, const NO: usize> {
    signals: Vec<SignalSlot>,
    effects: Vec<EffectSlot>,
    owners_used: Vec<bool>,
    nodes: Vec<Node>,
    dirty: Vec<NodeId>,
}

/// A placeholder node for unused arena slots.
pub fn empty_node() -> (n: Node)
    ensures
        n.kind matches Kind::Text { src, content } && src == TextSource::Static("")
            && text_chars(content) == Seq::<char>::empty(),
        n.bounds == (Rect { x: 0, y: 0, w: 0, h: 0 }),
        n.owner == OwnerId(0),
{
    Node {
        kind: Kind::Text { src: TextSource::Static(""), content: text_new() },
        bounds: Rect::new(0, 0, 0, 0),
        owner: OwnerId(0),
    }
}

impl<const NS: usize, const NN: usize, const NE: usize, const NO: usize> Storage<NS, NN, NE, NO> {
    pub closed spec fn sizes_ok(&self) -> bool {
        &&& self.signals@.len() == NS
        &&& self.effects@.len() == NE
        &&& self.owners_used@.len() == NO
        &&& self.nodes@.len() == NN
        &&& self.dirty@.len() == NN
        &&& forall|i: int| 0 <= i < NS ==> !(#[trigger] self.signals@[i]).in_use
            && subscriber_list(self.signals@[i].subs) == Seq::<NodeId>::empty()
        &&& forall|i: int| 0 <= i < NE ==> !(#[trigger] self.effects@[i]).in_use
        &&& forall|i: int| 0 <= i < NO ==> !(#[trigger] self.owners_used@[i])
    }

    /// Empty backing pools: no signal, effect or owner allocated.
    pub fn new() -> (s: Self)
        ensures
            s.sizes_ok(),
    {
        let mut signals: Vec<SignalSlot> = Vec::new();
        let mut i: usize = 0;
        while i < NS
            invariant
                i <= NS,
                signals@.len() == i,
                forall|j: int| 0 <= j < i ==> !(#[trigger] signals@[j]).in_use
                    && subscriber_list(signals@[j].subs) == Seq::<NodeId>::empty(),
            decreases NS - i,
        {
            signals.push(SignalSlot { value: 0, subs: subscribers_new(), owner: OwnerId(0), in_use: false });
            i = i + 1;
        }
        let mut effects: Vec<EffectSlot> = Vec::new();
        let mut i: usize = 0;
        while i < NE
            invariant
                i <= NE,
                effects@.len() == i,
                forall|j: int| 0 <= j < i ==> !(#[trigger] effects@[j]).in_use,
            decreases NE - i,
        {
            effects.push(EffectSlot { owner: OwnerId(0), in_use: false });
            i = i + 1;
        }
        let mut owners_used: Vec<bool> = Vec::new();
        let mut i: usize = 0;
        while i < NO
            invariant
                i <= NO,
                owners_used@.len() == i,
                forall|j: int| 0 <= j < i ==> !(#[trigger] owners_used@[j]),
            decreases NO - i,
        {
            owners_used.push(false);
            i = i + 1;
        }
        let mut nodes: Vec<Node> = Vec::new();
        let mut dirty: Vec<NodeId> = Vec::new();
        let mut i: usize = 0;
        while i < NN
            invariant
                i <= NN,
                nodes@.len() == i,
                dirty@.len() == i,
            decreases NN - i,
        {
            nodes.push(empty_node());
            dirty.push(NodeId(0));
            i = i + 1;
        }
        Storage { signals, effects, owners_used, nodes, dirty }
    }
}

/// The engine's view of app-owned storage: a runtime with nothing allocated, no
/// nodes, nothing dirty and no focus.
pub fn install<'a, const NS: usize, const NN: usize, const NE: usize, const NO: usize>(
    storage: &'a mut Storage<NS, NN, NE, NO>,
) -> (rt: Runtime<'a>)
    requires
        old(storage).sizes_ok(),
        NS <= 0x1_0000,
        NN <= 0x1_0000,
        NE <= 0x1_0000,
        NO <= 0x1_0000,
    ensures
        rt.wf(),
        rt.signals@.len() == NS,
        rt.effects@.len() == NE,
        rt.owners_used@.len() == NO,
        rt.nodes.capacity() == NN,
        rt.node_seq() == Seq::<Node>::empty(),
        rt.dirty_seq() == Seq::<NodeId>::empty(),
        forall|i: int| 0 <= i < NS ==> !(#[trigger] rt.signals@[i]).in_use,
        forall|i: int| 0 <= i < NE ==> !(#[trigger] rt.effects@[i]).in_use,
        forall|i: int| 0 <= i < NO ==> !(#[trigger] rt.owners_used@[i]),
        rt.focus is None,
        rt.current_effect is None,
        rt.epoch == 0,
{
    let nodes = Arena::new(storage.nodes.as_mut_slice());
    let dirty = Arena::new(storage.dirty.as_mut_slice());
    Runtime {
        signals: storage.signals.as_mut_slice(),
        effects: storage.effects.as_mut_slice(),
        owners_used: storage.owners_used.as_mut_slice(),
        nodes,
        dirty,
        current_effect: None,
        focus: None,
        epoch: 0,
    }
}

} // verus!
