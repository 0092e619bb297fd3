//! Plain integer handles into the runtime's pools.
use vstd::prelude::*;

verus! {

/// A disposal scope's owner tag; `OwnerId(0)` is the reserved "no owner" tag.
#[derive(Copy, Clone, PartialEq, Eq, Debug, Structural)]
pub struct OwnerId(pub u16);

/// Index of a signal slot.
#[derive(Copy, Clone, PartialEq, Eq, Debug, Structural)]
pub struct SignalId(pub u16);

/// Index of an effect/handler slot.
#[derive(Copy, Clone, PartialEq, Eq, Debug, Structural)]
pub struct EffectId(pub u16);

/// Index of an animator.
#[derive(Copy, Clone, PartialEq, Eq, Debug, Structural)]
pub struct AnimId(pub u16);

/// Index of a node in the node arena.
#[derive(Copy, Clone, PartialEq, Eq, Debug, Structural)]
pub struct NodeId(pub u16);

} // verus!
