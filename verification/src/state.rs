//! A value with a monotonic generation counter: widgets compare the generation
//! against a stored one to detect changes (no heap, no observers).
use vstd::prelude::*;
use vstd::std_specs::cmp::PartialEqSpec;

verus! {

/// The generation after one change: `g + 1`, wrapping at `u32::MAX`.
pub open spec fn next_generation(g: u32) -> u32 {
    if g == u32::MAX { 0 } else { (g + 1) as u32 }
}

pub struct State<T> {
    value: T,
    generation: u32,
}

impl<T: PartialEq> State<T> {
    pub closed spec fn value_view(&self) -> T {
        self.value
    }

    pub closed spec fn generation_view(&self) -> u32 {
        self.generation
    }

    /// A fresh state holding `value`, at generation 1.
    pub fn new(value: T) -> (s: Self)
        ensures
            s.value_view() == value,
            s.generation_view() == 1,
    {
        State { value, generation: 1 }
    }

    pub fn get(&self) -> (v: &T)
        ensures
            *v == self.value_view(),
    {
        &self.value
    }

    pub fn generation(&self) -> (g: u32)
        ensures
            g == self.generation_view(),
    {
        self.generation
    }

    /// Store `value`; the generation moves on only when the value actually changed
    /// (as `T`'s equality sees it).
    pub fn set(&mut self, value: T)
        ensures
            T::obeys_eq_spec() && old(self).value_view().eq_spec(&value) ==> *final(self) == *old(self),
            T::obeys_eq_spec() && !old(self).value_view().eq_spec(&value) ==> {
                &&& final(self).value_view() == value
                &&& final(self).generation_view() == next_generation(old(self).generation_view())
            },
    {
        if self.value != value {
            self.value = value;
            self.generation = self.generation.wrapping_add(1);
        }
    }
}

} // verus!
