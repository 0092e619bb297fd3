//! Disposal scopes: signals and handlers created under a scope are freed when the
//! scope is disposed.
use vstd::prelude::*;
use crate::bounded::subscriber_list;
use super::ids::{EffectId, NodeId, OwnerId};
use super::runtime::{
    EffectSlot, Runtime, first_free_effect, first_free_owner, first_free_signal, id_below,
    signal_freed,
};
use super::signal::{ReactiveValue, Signal};

verus! {

/// A disposal scope, identified by its owner tag.
#[derive(Copy, Clone)]
pub struct Scope {
    pub owner: OwnerId,
}

/// Some owner tag other than the reserved 0 is free.
pub open spec fn has_free_owner(rt: &Runtime) -> bool {
    exists|i: int| 1 <= i < rt.owners_used@.len() && !rt.owners_used@[i]
}

/// Some signal slot is free.
pub open spec fn has_free_signal(rt: &Runtime) -> bool {
    exists|i: int| 0 <= i < rt.signals@.len() && !rt.signals@[i].in_use
}

/// Some effect slot is free.
pub open spec fn has_free_effect(rt: &Runtime) -> bool {
    exists|i: int| 0 <= i < rt.effects@.len() && !rt.effects@[i].in_use
}

fn new_owner(rt: &mut Runtime) -> (o: OwnerId)
    requires
        old(rt).wf(),
        has_free_owner(&*old(rt)),
    ensures
        final(rt).wf(),
        first_free_owner(old(rt).owners_used@, o.0 as int),
        final(rt).owners_used@ == old(rt).owners_used@.update(o.0 as int, true),
        final(rt).signals@ == old(rt).signals@,
        final(rt).effects@ == old(rt).effects@,
        final(rt).nodes == old(rt).nodes,
        final(rt).dirty == old(rt).dirty,
        final(rt).focus == old(rt).focus,
        final(rt).current_effect == old(rt).current_effect,
        final(rt).epoch == old(rt).epoch,
{
    let o = rt.alloc_owner();
    proof {
        assert(rt.node_seq() == old(rt).node_seq());
    }
    o
}

impl Scope {
    /// A scope with a fresh owner tag (the lowest free one).
    pub fn root(rt: &mut Runtime) -> (cx: Scope)
        requires
            old(rt).wf(),
            has_free_owner(&*old(rt)),
        ensures
            final(rt).wf(),
            first_free_owner(old(rt).owners_used@, cx.owner.0 as int),
            final(rt).owners_used@ == old(rt).owners_used@.update(cx.owner.0 as int, true),
            final(rt).signals@ == old(rt).signals@,
            final(rt).effects@ == old(rt).effects@,
            final(rt).nodes == old(rt).nodes,
            final(rt).dirty == old(rt).dirty,
            final(rt).focus == old(rt).focus,
            final(rt).current_effect == old(rt).current_effect,
            final(rt).epoch == old(rt).epoch,
    {
        Scope { owner: new_owner(rt) }
    }

    /// A nested scope: a fresh owner of its own.
    pub fn child(self, rt: &mut Runtime) -> (cx: Scope)
        requires
            old(rt).wf(),
            has_free_owner(&*old(rt)),
        ensures
            final(rt).wf(),
            first_free_owner(old(rt).owners_used@, cx.owner.0 as int),
            final(rt).owners_used@ == old(rt).owners_used@.update(cx.owner.0 as int, true),
            final(rt).signals@ == old(rt).signals@,
            final(rt).effects@ == old(rt).effects@,
            final(rt).nodes == old(rt).nodes,
            final(rt).dirty == old(rt).dirty,
            final(rt).focus == old(rt).focus,
            final(rt).current_effect == old(rt).current_effect,
            final(rt).epoch == old(rt).epoch,
    {
        Scope { owner: new_owner(rt) }
    }

    /// A new signal owned by this scope, holding `init`.
    pub fn signal<T: ReactiveValue>(self, rt: &mut Runtime, init: T) -> (s: Signal<T>)
        requires
            old(rt).wf(),
            has_free_signal(&*old(rt)),
        ensures
            final(rt).wf(),
            first_free_signal(old(rt).signals@, s.id.0 as int),
            s.valid_in(&*final(rt)),
            s.value_in(&*final(rt)) == init,
            s.canonical_in(&*final(rt)),
            final(rt).signals@[s.id.0 as int].in_use,
            final(rt).signals@[s.id.0 as int].owner == self.owner,
            subscriber_list(final(rt).signals@[s.id.0 as int].subs) == Seq::<NodeId>::empty(),
            final(rt).signals@.len() == old(rt).signals@.len(),
            forall|i: int| 0 <= i < old(rt).signals@.len() && i != s.id.0 ==> final(rt).signals@[i] == old(rt).signals@[i],
            final(rt).effects@ == old(rt).effects@,
            final(rt).owners_used@ == old(rt).owners_used@,
            final(rt).nodes == old(rt).nodes,
            final(rt).dirty == old(rt).dirty,
            final(rt).focus == old(rt).focus,
            final(rt).current_effect == old(rt).current_effect,
            final(rt).epoch == old(rt).epoch,
    {
        Signal::alloc_in(rt, self.owner, init)
    }

    /// Free everything this scope owns: its signals and handlers become
    /// unallocated and its owner tag is released.
    pub fn dispose(self, rt: &mut Runtime)
        requires
            old(rt).wf(),
            (self.owner.0 as int) < old(rt).owners_used@.len(),
        ensures
            final(rt).wf(),
            final(rt).signals@.len() == old(rt).signals@.len(),
            forall|i: int| 0 <= i < old(rt).signals@.len() ==> {
                let (b, a) = (#[trigger] old(rt).signals@[i], final(rt).signals@[i]);
                if b.in_use && b.owner == self.owner { signal_freed(b, a) } else { a == b }
            },
            final(rt).effects@.len() == old(rt).effects@.len(),
            forall|i: int| 0 <= i < old(rt).effects@.len() ==> {
                let (b, a) = (#[trigger] old(rt).effects@[i], final(rt).effects@[i]);
                if b.in_use && b.owner == self.owner { a == (EffectSlot { in_use: false, ..b }) } else { a == b }
            },
            final(rt).owners_used@ == old(rt).owners_used@.update(self.owner.0 as int, false),
            final(rt).nodes == old(rt).nodes,
            final(rt).dirty == old(rt).dirty,
            final(rt).focus == old(rt).focus,
            final(rt).current_effect == old(rt).current_effect,
            final(rt).epoch == old(rt).epoch,
    {
        rt.free_owner(self.owner);
        proof {
            assert(rt.node_seq() == old(rt).node_seq());
            assert forall|a: int, k: int| 0 <= a < rt.signals@.len() && 0 <= k < subscriber_list(rt.signals@[a].subs).len()
                implies id_below(#[trigger] subscriber_list(rt.signals@[a].subs)[k], rt.node_count()) by {
                let b = old(rt).signals@[a];
                if !(b.in_use && b.owner == self.owner) {
                    assert(rt.signals@[a] == b);
                }
            }
        }
    }

    /// Allocate a handler/effect slot owned by this scope; the caller keeps the
    /// closure under the returned id.
    pub fn handler(self, rt: &mut Runtime) -> (e: EffectId)
        requires
            old(rt).wf(),
            has_free_effect(&*old(rt)),
        ensures
            final(rt).wf(),
            first_free_effect(old(rt).effects@, e.0 as int),
            final(rt).effects@ == old(rt).effects@.update(e.0 as int, EffectSlot { owner: self.owner, in_use: true }),
            final(rt).signals@ == old(rt).signals@,
            final(rt).owners_used@ == old(rt).owners_used@,
            final(rt).nodes == old(rt).nodes,
            final(rt).dirty == old(rt).dirty,
            final(rt).focus == old(rt).focus,
            final(rt).current_effect == old(rt).current_effect,
            final(rt).epoch == old(rt).epoch,
    {
        let e = rt.alloc_effect(self.owner);
        proof {
            assert(rt.node_seq() == old(rt).node_seq());
        }
        e
    }
}

/// React-style alias for `cx.signal(init())`: `init` is called once and the new
/// signal, owned by `cx`, holds what it returned.
pub fn use_state<T: ReactiveValue, F: FnOnce() -> T>(cx: Scope, rt: &mut Runtime, init: F) -> (s: Signal<T>)
    requires
        old(rt).wf(),
        has_free_signal(&*old(rt)),
        call_requires(init, ()),
    ensures
        final(rt).wf(),
        first_free_signal(old(rt).signals@, s.id.0 as int),
        s.valid_in(&*final(rt)),
        call_ensures(init, (), s.value_in(&*final(rt))),
        s.canonical_in(&*final(rt)),
        final(rt).signals@[s.id.0 as int].in_use,
        final(rt).signals@[s.id.0 as int].owner == cx.owner,
        subscriber_list(final(rt).signals@[s.id.0 as int].subs) == Seq::<NodeId>::empty(),
        final(rt).signals@.len() == old(rt).signals@.len(),
        forall|i: int| 0 <= i < old(rt).signals@.len() && i != s.id.0 ==> final(rt).signals@[i] == old(rt).signals@[i],
        final(rt).effects@ == old(rt).effects@,
        final(rt).owners_used@ == old(rt).owners_used@,
        final(rt).nodes == old(rt).nodes,
        final(rt).dirty == old(rt).dirty,
        final(rt).focus == old(rt).focus,
        final(rt).current_effect == old(rt).current_effect,
        final(rt).epoch == old(rt).epoch,
{
    let v = init();
    cx.signal(rt, v)
}

} // verus!
