//! A bounded, growable buffer over a borrowed slice: the engine's non-generic
//! stand-in for a fixed-capacity vector. It carries no capacity in its type, so
//! the runtime view can hold it without leaking the app's pool sizes into engine
//! signatures. `len` tracks the live prefix `[0..len)` of the backing slice.
use vstd::prelude::*;
use vstd::std_specs::cmp::PartialEqSpec;

verus! {

pub struct Arena<'a, T> {
    buf: &'a mut [T],
    len: usize,
}

impl<'a, T> Arena<'a, T> {
    /// The live elements, oldest first.
    pub closed spec fn live(&self) -> Seq<T> {
        self.buf@.take(self.len as int)
    }

    /// The length of the backing slice.
    pub closed spec fn capacity(&self) -> nat {
        self.buf@.len()
    }

    pub closed spec fn wf(&self) -> bool {
        self.len <= self.buf@.len()
    }

    /// A well-formed arena holds at most its capacity.
    pub proof fn lemma_len_le_capacity(&self)
        requires
            self.wf(),
        ensures
            self.live().len() <= self.capacity(),
    {
    }

    /// An empty arena over `buf`.
    pub fn new(buf: &'a mut [T]) -> (a: Self)
        ensures
            a.wf(),
            a.live() == Seq::<T>::empty(),
            a.capacity() == old(buf)@.len(),
    {
        Arena { buf, len: 0 }
    }

    pub fn len(&self) -> (n: usize)
        requires
            self.wf(),
        ensures
            n == self.live().len(),
            n <= self.capacity(),
    {
        self.len
    }

    pub fn is_empty(&self) -> (b: bool)
        requires
            self.wf(),
        ensures
            b == (self.live().len() == 0),
    {
        self.len == 0
    }

    /// Is there room for one more element?
    pub fn has_room(&self) -> (b: bool)
        requires
            self.wf(),
        ensures
            b == (self.live().len() < self.capacity()),
    {
        self.len < self.buf.len()
    }

    /// Forget every live element (the backing slice keeps its storage).
    pub fn clear(&mut self)
        requires
            old(self).wf(),
        ensures
            final(self).wf(),
            final(self).live() == Seq::<T>::empty(),
            final(self).capacity() == old(self).capacity(),
    {
        self.len = 0;
    }

    /// Append `v`; `false` (and no change) when the backing slice is full.
    pub fn push(&mut self, v: T) -> (ok: bool)
        requires
            old(self).wf(),
        ensures
            final(self).wf(),
            ok == (old(self).live().len() < old(self).capacity()),
            ok ==> final(self).live() == old(self).live().push(v),
            !ok ==> final(self).live() == old(self).live(),
            final(self).capacity() == old(self).capacity(),
    {
        if self.len < self.buf.len() {
            self.buf[self.len] = v;
            self.len = self.len + 1;
            assert(self.live() =~= old(self).live().push(v));
            true
        } else {
            false
        }
    }

    /// The live prefix as a slice.
    pub fn as_slice(&self) -> (s: &[T])
        requires
            self.wf(),
        ensures
            s@ == self.live(),
    {
        &self.buf[0..self.len]
    }

    /// The `i`-th live element.
    pub fn get(&self, i: usize) -> (r: &T)
        requires
            self.wf(),
            i < self.live().len(),
        ensures
            *r == self.live()[i as int],
    {
        &self.buf[i]
    }

    /// Mutable access to the `i`-th live element.
    pub fn get_mut(&mut self, i: usize) -> (r: &mut T)
        requires
            old(self).wf(),
            i < old(self).live().len(),
        ensures
            *r == old(self).live()[i as int],
            final(self).wf(),
            final(self).capacity() == old(self).capacity(),
            final(self).live() == old(self).live().update(i as int, *final(r)),
    {
        &mut self.buf[i]
    }

    /// Overwrite the `i`-th live element.
    pub fn set(&mut self, i: usize, v: T)
        requires
            old(self).wf(),
            i < old(self).live().len(),
        ensures
            final(self).wf(),
            final(self).capacity() == old(self).capacity(),
            final(self).live() == old(self).live().update(i as int, v),
    {
        self.buf[i] = v;
        assert(self.live() =~= old(self).live().update(i as int, v));
    }
}

impl<'a, T: PartialEq> Arena<'a, T> {
    /// Is some live element equal to `v`?
    pub fn contains(&self, v: &T) -> (b: bool)
        requires
            self.wf(),
            T::obeys_eq_spec(),
        ensures
            b == (exists|i: int| 0 <= i < self.live().len() && self.live()[i].eq_spec(v)),
    {
        let mut i: usize = 0;
        while i < self.len
            invariant
                self.wf(),
                T::obeys_eq_spec(),
                i <= self.len,
                forall|j: int| 0 <= j < i ==> !self.live()[j].eq_spec(v),
            decreases self.len - i,
        {
            if self.buf[i] == *v {
                assert(self.live()[i as int] == self.buf@[i as int]);
                return true;
            }
            i = i + 1;
        }
        false
    }
}

impl<'a, T> core::ops::Index<usize> for Arena<'a, T> {
    type Output = T;

    fn index(&self, i: usize) -> (r: &T)
        ensures
            *r == self.live()[i as int],
    {
        &self.buf[i]
    }
}

impl<'a, T> vstd::std_specs::core::IndexSpecImpl<usize> for Arena<'a, T> {
    open spec fn index_req(&self, i: &usize) -> bool {
        self.wf() && *i < self.live().len()
    }
}

} // verus!
