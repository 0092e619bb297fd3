//! Copy, size-bounded reactive cells. A signal's value is stored encoded as one
//! machine word in its slot; `get` records a dependency when an effect is running,
//! and `set` bumps the epoch and dirties subscribers only when the value changes.
use vstd::prelude::*;
use crate::bounded::{subscriber_list, subscribers_at, subscribers_len, subscribers_push};
use crate::paint::Color;
use crate::state::next_generation;
use super::ids::{NodeId, OwnerId, SignalId};
use super::runtime::{Runtime, SignalSlot, first_free_signal, mark_all, mark_in, id_below, node_wf};
use super::scope::has_free_signal;

verus! {

/// A value a signal can hold: `Copy`, and encodable into one slot word such that
/// decoding gives the value back.
pub trait ReactiveValue: Copy {
    spec fn to_word(self) -> u64;

    spec fn from_word(w: u64) -> Self;

    fn encode(self) -> (w: u64)
        ensures
            w == self.to_word(),
    ;

    fn decode(w: u64) -> (v: Self)
        ensures
            v == Self::from_word(w),
    ;

    /// Decoding an encoded value gives it back.
    proof fn lemma_round_trip(v: Self)
        ensures
            Self::from_word(v.to_word()) == v,
    ;
}

impl ReactiveValue for u64 {
    open spec fn to_word(self) -> u64 {
        self
    }

    open spec fn from_word(w: u64) -> Self {
        w
    }

    fn encode(self) -> (w: u64) {
        self
    }

    fn decode(w: u64) -> (v: Self) {
        w
    }

    proof fn lemma_round_trip(v: Self) {
    }
}

impl ReactiveValue for u32 {
    open spec fn to_word(self) -> u64 {
        self as u64
    }

    open spec fn from_word(w: u64) -> Self {
        w as u32
    }

    fn encode(self) -> (w: u64) {
        self as u64
    }

    fn decode(w: u64) -> (v: Self) {
        w as u32
    }

    proof fn lemma_round_trip(v: Self) {
    }
}

impl ReactiveValue for u16 {
    open spec fn to_word(self) -> u64 {
        self as u64
    }

    open spec fn from_word(w: u64) -> Self {
        w as u16
    }

    fn encode(self) -> (w: u64) {
        self as u64
    }

    fn decode(w: u64) -> (v: Self) {
        w as u16
    }

    proof fn lemma_round_trip(v: Self) {
    }
}

impl ReactiveValue for u8 {
    open spec fn to_word(self) -> u64 {
        self as u64
    }

    open spec fn from_word(w: u64) -> Self {
        w as u8
    }

    fn encode(self) -> (w: u64) {
        self as u64
    }

    fn decode(w: u64) -> (v: Self) {
        w as u8
    }

    proof fn lemma_round_trip(v: Self) {
    }
}

impl ReactiveValue for bool {
    open spec fn to_word(self) -> u64 {
        if self { 1 } else { 0 }
    }

    open spec fn from_word(w: u64) -> Self {
        w != 0
    }

    fn encode(self) -> (w: u64) {
        if self { 1 } else { 0 }
    }

    fn decode(w: u64) -> (v: Self) {
        w != 0
    }

    proof fn lemma_round_trip(v: Self) {
    }
}

/// Signed values are stored offset by half the range, so the word is their
/// position from the type's minimum.
impl ReactiveValue for i32 {
    open spec fn to_word(self) -> u64 {
        (self as int + 0x8000_0000) as u64
    }

    open spec fn from_word(w: u64) -> Self {
        ((w as u32) as int - 0x8000_0000) as i32
    }

    fn encode(self) -> (w: u64) {
        (self as i64 + 0x8000_0000i64) as u64
    }

    fn decode(w: u64) -> (v: Self) {
        ((w as u32) as i64 - 0x8000_0000i64) as i32
    }

    proof fn lemma_round_trip(v: Self) {
    }
}

impl ReactiveValue for i16 {
    open spec fn to_word(self) -> u64 {
        (self as int + 0x8000) as u64
    }

    open spec fn from_word(w: u64) -> Self {
        ((w as u16) as int - 0x8000) as i16
    }

    fn encode(self) -> (w: u64) {
        (self as i32 + 0x8000i32) as u64
    }

    fn decode(w: u64) -> (v: Self) {
        ((w as u16) as i32 - 0x8000i32) as i16
    }

    proof fn lemma_round_trip(v: Self) {
    }
}

impl ReactiveValue for i64 {
    open spec fn to_word(self) -> u64 {
        (self as int + 0x8000_0000_0000_0000) as u64
    }

    open spec fn from_word(w: u64) -> Self {
        (w as int - 0x8000_0000_0000_0000) as i64
    }

    fn encode(self) -> (w: u64) {
        if self >= 0 {
            self as u64 + 0x8000_0000_0000_0000u64
        } else {
            (self + 0x7FFF_FFFF_FFFF_FFFFi64 + 1) as u64
        }
    }

    fn decode(w: u64) -> (v: Self) {
        if w >= 0x8000_0000_0000_0000u64 {
            (w - 0x8000_0000_0000_0000u64) as i64
        } else {
            (w as i64) - 0x7FFF_FFFF_FFFF_FFFFi64 - 1
        }
    }

    proof fn lemma_round_trip(v: Self) {
    }
}

impl ReactiveValue for Color {
    open spec fn to_word(self) -> u64 {
        self.0 as u64
    }

    open spec fn from_word(w: u64) -> Self {
        Color(w as u16)
    }

    fn encode(self) -> (w: u64) {
        self.0 as u64
    }

    fn decode(w: u64) -> (v: Self) {
        Color(w as u16)
    }

    proof fn lemma_round_trip(v: Self) {
    }
}

} // verus!

verus! {

/// The subscriber list after a read by `reader`: the reader is appended when it
/// is not yet listed and the list (of capacity 4) has room.
pub open spec fn subscribe_in(subs: Seq<NodeId>, reader: Option<NodeId>) -> Seq<NodeId> {
    match reader {
        Some(n) => if subs.contains(n) || subs.len() >= 4 { subs } else { subs.push(n) },
        None => subs,
    }
}

/// Everything but the signal pool and the dirty list/epoch is as before.
pub open spec fn same_except_signals(a: &Runtime, b: &Runtime) -> bool {
    &&& b.signals@.len() == a.signals@.len()
    &&& b.effects@ == a.effects@
    &&& b.owners_used@ == a.owners_used@
    &&& b.nodes == a.nodes
    &&& b.current_effect == a.current_effect
    &&& b.focus == a.focus
}

impl<'a> Runtime<'a> {
    /// Record that the running effect (if any) reads signal `id`.
    pub fn subscribe_current(&mut self, id: SignalId)
        requires
            old(self).wf(),
            (id.0 as int) < old(self).signals@.len(),
        ensures
            final(self).wf(),
            same_except_signals(&*old(self), &*final(self)),
            final(self).dirty == old(self).dirty,
            final(self).epoch == old(self).epoch,
            forall|i: int| 0 <= i < old(self).signals@.len() && i != id.0 ==> final(self).signals@[i] == old(self).signals@[i],
            final(self).signals@[id.0 as int].value == old(self).signals@[id.0 as int].value,
            final(self).signals@[id.0 as int].owner == old(self).signals@[id.0 as int].owner,
            final(self).signals@[id.0 as int].in_use == old(self).signals@[id.0 as int].in_use,
            subscriber_list(final(self).signals@[id.0 as int].subs) == subscribe_in(
                subscriber_list(old(self).signals@[id.0 as int].subs),
                old(self).current_effect,
            ),
    {
        if let Some(node) = self.current_effect {
            let i = id.0 as usize;
            let n = subscribers_len(&self.signals[i].subs);
            let mut k: usize = 0;
            let mut found = false;
            while k < n
                invariant
                    k <= n,
                    n == subscriber_list(self.signals@[i as int].subs).len(),
                    i < self.signals@.len(),
                    found == exists|j: int| 0 <= j < k && subscriber_list(self.signals@[i as int].subs)[j] == node,
                decreases n - k,
            {
                let s = subscribers_at(&self.signals[i].subs, k);
                if s.0 == node.0 {
                    found = true;
                }
                k = k + 1;
            }
            if !found {
                let slot = &mut self.signals[i];
                let _ = subscribers_push(&mut slot.subs, node);
            }
            proof {
                assert forall|a: int, k: int| 0 <= a < self.signals@.len() && 0 <= k < subscriber_list(self.signals@[a].subs).len()
                    implies id_below(#[trigger] subscriber_list(self.signals@[a].subs)[k], self.node_count()) by {
                    if a != i {
                        assert(self.signals@[a] == old(self).signals@[a]);
                    } else if k < subscriber_list(old(self).signals@[a].subs).len() {
                        assert(subscriber_list(self.signals@[a].subs)[k] == subscriber_list(old(self).signals@[a].subs)[k]);
                    }
                }
                assert(self.nodes == old(self).nodes);
                assert(self.node_seq() == old(self).node_seq());
                assert(self.effects@ == old(self).effects@);
                assert(self.nodes.wf());
                assert(self.dirty.wf());
                assert(self.nodes.capacity() == self.dirty.capacity());
                assert(forall|i: int| 0 <= i < self.node_count() ==> node_wf(#[trigger] self.node_seq()[i], i, self.effects@.len() as int));
                assert(self.dirty_seq().no_duplicates());
            }
            proof {
                assert(found == subscriber_list(old(self).signals@[i as int].subs).contains(node));
            }
        }
    }

    /// Store word `w` in signal `id`. When it differs from the stored word the
    /// epoch moves on and every subscriber is marked dirty; otherwise nothing
    /// changes.
    pub fn write_signal(&mut self, id: SignalId, w: u64)
        requires
            old(self).wf(),
            (id.0 as int) < old(self).signals@.len(),
        ensures
            final(self).wf(),
            old(self).signals@[id.0 as int].value == w ==> *final(self) == *old(self),
            old(self).signals@[id.0 as int].value != w ==> {
                &&& same_except_signals(&*old(self), &*final(self))
                &&& final(self).signals@ == old(self).signals@.update(
                    id.0 as int,
                    SignalSlot { value: w, ..old(self).signals@[id.0 as int] },
                )
                &&& final(self).epoch == next_generation(old(self).epoch)
                &&& final(self).dirty.capacity() == old(self).dirty.capacity()
                &&& final(self).dirty_seq() == mark_all(
                    old(self).dirty_seq(),
                    subscriber_list(old(self).signals@[id.0 as int].subs),
                    old(self).dirty.capacity(),
                )
            },
    {
        let i = id.0 as usize;
        if self.signals[i].value == w {
            return;
        }
        let slot = &mut self.signals[i];
        slot.value = w;
        self.epoch = self.epoch.wrapping_add(1);
        proof {
            assert forall|a: int, k: int| 0 <= a < self.signals@.len() && 0 <= k < subscriber_list(self.signals@[a].subs).len()
                implies id_below(#[trigger] subscriber_list(self.signals@[a].subs)[k], self.node_count()) by {
                assert(subscriber_list(self.signals@[a].subs) == subscriber_list(old(self).signals@[a].subs));
            }
            assert(self.node_seq() == old(self).node_seq());
        }
        let n = subscribers_len(&self.signals[i].subs);
        let ghost subs = subscriber_list(old(self).signals@[i as int].subs);
        let mut k: usize = 0;
        while k < n
            invariant
                k <= n,
                i < self.signals@.len(),
                n == subs.len(),
                subs == subscriber_list(self.signals@[i as int].subs),
                self.wf(),
                same_except_signals(&*old(self), &*self),
                self.signals@ == old(self).signals@.update(i as int, SignalSlot { value: w, ..old(self).signals@[i as int] }),
                self.epoch == next_generation(old(self).epoch),
                self.dirty.capacity() == old(self).dirty.capacity(),
                self.dirty_seq() == mark_all(old(self).dirty_seq(), subs.take(k as int), old(self).dirty.capacity()),
            decreases n - k,
        {
            let s = subscribers_at(&self.signals[i].subs, k);
            proof {
                assert(subs.take(k + 1).drop_last() =~= subs.take(k as int));
                assert(id_below(subs[k as int], self.node_count()));
            }
            self.mark_dirty(s);
            k = k + 1;
        }
        proof {
            assert(subs.take(n as int) =~= subs);
        }
    }
}

/// A typed handle to a signal slot.
pub struct Signal<T> {
    pub id: SignalId,
    pub _pd: core::marker::PhantomData<T>,
}

impl<T> Clone for Signal<T> {
    fn clone(&self) -> (s: Self)
        ensures
            s == *self,
    {
        Signal { id: self.id, _pd: core::marker::PhantomData }
    }
}

impl<T> Copy for Signal<T> {
}

impl<T: ReactiveValue> Signal<T> {
    /// Allocate the lowest free signal slot to `owner`, holding `init`.
    pub fn alloc_in(rt: &mut Runtime, owner: OwnerId, init: T) -> (s: Signal<T>)
        requires
            old(rt).wf(),
            has_free_signal(&*old(rt)),
        ensures
            final(rt).wf(),
            first_free_signal(old(rt).signals@, s.id.0 as int),
            s.valid_in(&*final(rt)),
            s.value_in(&*final(rt)) == init,
            s.canonical_in(&*final(rt)),
            final(rt).signals@[s.id.0 as int].in_use,
            final(rt).signals@[s.id.0 as int].owner == owner,
            subscriber_list(final(rt).signals@[s.id.0 as int].subs) == Seq::<NodeId>::empty(),
            final(rt).signals@.len() == old(rt).signals@.len(),
            forall|i: int| 0 <= i < old(rt).signals@.len() && i != s.id.0 ==> final(rt).signals@[i] == old(rt).signals@[i],
            final(rt).effects@ == old(rt).effects@,
            final(rt).owners_used@ == old(rt).owners_used@,
            final(rt).nodes == old(rt).nodes,
            final(rt).dirty == old(rt).dirty,
            final(rt).focus == old(rt).focus,
            final(rt).current_effect == old(rt).current_effect,
            final(rt).epoch == old(rt).epoch,
    {
        proof {
            T::lemma_round_trip(init);
        }
        let id = rt.alloc_signal(owner, init.encode());
        proof {
            assert(rt.node_seq() == old(rt).node_seq());
            assert forall|a: int, k: int| 0 <= a < rt.signals@.len() && 0 <= k < subscriber_list(rt.signals@[a].subs).len()
                implies id_below(#[trigger] subscriber_list(rt.signals@[a].subs)[k], rt.node_count()) by {
                assert(rt.signals@[a] == old(rt).signals@[a]);
            }
        }
        Signal { id, _pd: core::marker::PhantomData }
    }

    /// The handle is usable with `rt`: its slot exists.
    pub open spec fn valid_in(&self, rt: &Runtime) -> bool {
        (self.id.0 as int) < rt.signals@.len()
    }

    /// The signal's stored word is the encoding of the value it decodes to (as
    /// allocating and writing through the handle leave it).
    pub open spec fn canonical_in(&self, rt: &Runtime) -> bool {
        T::to_word(T::from_word(self.word_in(rt))) == self.word_in(rt)
    }

    /// The word stored in the signal's slot.
    pub open spec fn word_in(&self, rt: &Runtime) -> u64 {
        rt.signals@[self.id.0 as int].value
    }

    /// The value the signal holds in `rt`.
    pub open spec fn value_in(&self, rt: &Runtime) -> T {
        T::from_word(rt.signals@[self.id.0 as int].value)
    }

    /// The current value; the running effect (if any) becomes a subscriber.
    pub fn get(self, rt: &mut Runtime) -> (v: T)
        requires
            old(rt).wf(),
            self.valid_in(&*old(rt)),
        ensures
            v == self.value_in(&*old(rt)),
            final(rt).wf(),
            same_except_signals(&*old(rt), &*final(rt)),
            final(rt).dirty == old(rt).dirty,
            final(rt).epoch == old(rt).epoch,
            forall|i: int| 0 <= i < old(rt).signals@.len() && i != self.id.0 ==> final(rt).signals@[i] == old(rt).signals@[i],
            final(rt).signals@[self.id.0 as int].value == old(rt).signals@[self.id.0 as int].value,
            final(rt).signals@[self.id.0 as int].owner == old(rt).signals@[self.id.0 as int].owner,
            final(rt).signals@[self.id.0 as int].in_use == old(rt).signals@[self.id.0 as int].in_use,
            subscriber_list(final(rt).signals@[self.id.0 as int].subs) == subscribe_in(
                subscriber_list(old(rt).signals@[self.id.0 as int].subs),
                old(rt).current_effect,
            ),
    {
        rt.subscribe_current(self.id);
        T::decode(rt.signals[self.id.0 as usize].value)
    }

    /// Read without subscribing.
    pub fn get_in(self, rt: &Runtime) -> (v: T)
        requires
            self.valid_in(rt),
        ensures
            v == self.value_in(rt),
    {
        T::decode(rt.signals[self.id.0 as usize].value)
    }

    /// Store `v`; only a change of value bumps the epoch and dirties the
    /// subscribers.
    pub fn set(self, rt: &mut Runtime, v: T)
        requires
            old(rt).wf(),
            self.valid_in(&*old(rt)),
        ensures
            final(rt).wf(),
            self.value_in(&*final(rt)) == v,
            self.value_in(&*old(rt)) == v ==> *final(rt) == *old(rt),
            self.value_in(&*old(rt)) != v ==> {
                &&& same_except_signals(&*old(rt), &*final(rt))
                &&& final(rt).signals@ == old(rt).signals@.update(
                    self.id.0 as int,
                    SignalSlot { value: v.to_word(), ..old(rt).signals@[self.id.0 as int] },
                )
                &&& self.canonical_in(&*final(rt))
                &&& final(rt).epoch == next_generation(old(rt).epoch)
                &&& final(rt).dirty_seq() == mark_all(
                    old(rt).dirty_seq(),
                    subscriber_list(old(rt).signals@[self.id.0 as int].subs),
                    old(rt).dirty.capacity(),
                )
            },
    {
        let cur = T::decode(rt.signals[self.id.0 as usize].value);
        let (cw, vw) = (cur.encode(), v.encode());
        proof {
            T::lemma_round_trip(v);
            T::lemma_round_trip(cur);
        }
        if cw == vw {
            return;
        }
        rt.write_signal(self.id, vw);
    }
}

impl<T: ReactiveValue> Signal<T> {
    /// Read the value (subscribing the running effect), then `set` what `f` makes
    /// of it.
    pub fn update<F: FnOnce(T) -> T>(self, rt: &mut Runtime, f: F)
        requires
            old(rt).wf(),
            self.valid_in(&*old(rt)),
            call_requires(f, (self.value_in(&*old(rt)),)),
        ensures
            final(rt).wf(),
            call_ensures(f, (self.value_in(&*old(rt)),), self.value_in(&*final(rt))),
            same_except_signals(&*old(rt), &*final(rt)),
            forall|i: int| 0 <= i < old(rt).signals@.len() && i != self.id.0 ==> final(rt).signals@[i] == old(rt).signals@[i],
            final(rt).signals@[self.id.0 as int].owner == old(rt).signals@[self.id.0 as int].owner,
            final(rt).signals@[self.id.0 as int].in_use == old(rt).signals@[self.id.0 as int].in_use,
            subscriber_list(final(rt).signals@[self.id.0 as int].subs) == subscribe_in(
                subscriber_list(old(rt).signals@[self.id.0 as int].subs),
                old(rt).current_effect,
            ),
            self.value_in(&*final(rt)) == self.value_in(&*old(rt)) ==> {
                &&& final(rt).signals@[self.id.0 as int].value == old(rt).signals@[self.id.0 as int].value
                &&& final(rt).epoch == old(rt).epoch
                &&& final(rt).dirty == old(rt).dirty
            },
            self.value_in(&*final(rt)) != self.value_in(&*old(rt)) ==> {
                &&& self.canonical_in(&*final(rt))
                &&& final(rt).epoch == next_generation(old(rt).epoch)
                &&& final(rt).dirty_seq() == mark_all(
                    old(rt).dirty_seq(),
                    subscribe_in(subscriber_list(old(rt).signals@[self.id.0 as int].subs), old(rt).current_effect),
                    old(rt).dirty.capacity(),
                )
                &&& final(rt).dirty.capacity() == old(rt).dirty.capacity()
            },
    {
        let v = self.get(rt);
        let w = f(v);
        self.set(rt, w);
    }

    /// Apply `f` to the current value (subscribing the running effect).
    pub fn with<R, F: FnOnce(&T) -> R>(self, rt: &mut Runtime, f: F) -> (r: R)
        requires
            old(rt).wf(),
            self.valid_in(&*old(rt)),
            call_requires(f, (&self.value_in(&*old(rt)),)),
        ensures
            final(rt).wf(),
            call_ensures(f, (&self.value_in(&*old(rt)),), r),
            same_except_signals(&*old(rt), &*final(rt)),
            final(rt).dirty == old(rt).dirty,
            final(rt).epoch == old(rt).epoch,
            forall|i: int| 0 <= i < old(rt).signals@.len() && i != self.id.0 ==> final(rt).signals@[i] == old(rt).signals@[i],
            final(rt).signals@[self.id.0 as int].value == old(rt).signals@[self.id.0 as int].value,
            final(rt).signals@[self.id.0 as int].owner == old(rt).signals@[self.id.0 as int].owner,
            final(rt).signals@[self.id.0 as int].in_use == old(rt).signals@[self.id.0 as int].in_use,
            subscriber_list(final(rt).signals@[self.id.0 as int].subs) == subscribe_in(
                subscriber_list(old(rt).signals@[self.id.0 as int].subs),
                old(rt).current_effect,
            ),
    {
        let v = self.get(rt);
        f(&v)
    }
}

/// The nodes subscribed to signal `id`.
pub open spec fn subscribers_of(rt: &Runtime, id: SignalId) -> Seq<NodeId> {
    subscriber_list(rt.signals@[id.0 as int].subs)
}

/// Law: when a write changes a signal's value, every subscriber of the signal is
/// marked dirty and whatever was dirty stays dirty (the dirty list has room for
/// every node, so none is dropped).
pub proof fn law_change_dirties_subscribers(before: &Runtime, after: &Runtime, id: SignalId)
    requires
        before.wf(),
        (id.0 as int) < before.signals@.len(),
        after.dirty_seq() == mark_all(
            before.dirty_seq(),
            subscriber_list(before.signals@[id.0 as int].subs),
            before.dirty.capacity(),
        ),
    ensures
        forall|k: int| 0 <= k < subscribers_of(before, id).len()
            ==> after.dirty_seq().contains(#[trigger] subscribers_of(before, id)[k]),
        forall|x: NodeId| before.dirty_seq().contains(x) ==> #[trigger] after.dirty_seq().contains(x),
        after.dirty_seq().no_duplicates(),
{
    let subs = subscriber_list(before.signals@[id.0 as int].subs);
    before.nodes.lemma_len_le_capacity();
    assert forall|k: int| 0 <= k < subs.len() implies id_below(#[trigger] subs[k], before.node_count()) by {
        assert(id_below(subscriber_list(before.signals@[id.0 as int].subs)[k], before.node_count()));
    }
    super::runtime::lemma_mark_all_marks(before.dirty_seq(), subs, before.dirty.capacity(), before.node_count());
}

/// Law: reading a signal after writing `v` to it gives `v` back.
pub proof fn law_read_after_write<T: ReactiveValue>(s: Signal<T>, rt: &Runtime, v: T)
    requires
        s.valid_in(rt),
        rt.signals@[s.id.0 as int].value == v.to_word(),
    ensures
        s.value_in(rt) == v,
{
    T::lemma_round_trip(v);
}

} // verus!
