//! The identifiers a body index lives in: a system's ID, and a body's ID, which is its system's
//! and the 16 bits of its index.
//!
//! A body ID accepts any `u16`: what the values mean, and which are unused, is the layout's
//! ([`crate::index`]).

use vstd::prelude::*;

verus! {

/// A star system's identifier: 64 raw bits.
#[derive(Debug, Clone, Copy, PartialEq, Eq, Hash, PartialOrd, Ord, Structural)]
pub struct SystemId(u64);

impl View for SystemId {
    type V = u64;

    closed spec fn view(&self) -> u64 {
        self.0
    }
}

impl SystemId {
    /// The system whose raw identifier is `raw`.
    pub fn from_raw(raw: u64) -> (id: Self)
        ensures
            id@ == raw,
    {
        SystemId(raw)
    }

    /// The raw identifier.
    pub fn raw(&self) -> (raw: u64)
        ensures
            raw == self@,
    {
        self.0
    }
}

/// A body's identifier: its system and its 16-bit body index.
#[derive(Debug, Clone, Copy, PartialEq, Eq, Hash, PartialOrd, Ord, Structural)]
pub struct BodyId {
    system: SystemId,
    index: u16,
}

impl View for BodyId {
    type V = (SystemId, u16);

    closed spec fn view(&self) -> (SystemId, u16) {
        (self.system, self.index)
    }
}

impl BodyId {
    /// The body of index `index` in `system`; any 16 bits are accepted.
    pub fn new(system: SystemId, index: u16) -> (id: Self)
        ensures
            id@ == (system, index),
    {
        BodyId { system, index }
    }

    /// The body's system.
    pub fn system(&self) -> (system: SystemId)
        ensures
            system == self@.0,
    {
        self.system
    }

    /// The body's 16-bit index.
    pub fn body_index(&self) -> (index: u16)
        ensures
            index == self@.1,
    {
        self.index
    }
}

/// A generation layer of the galaxy, whose systems are generated on their own.
#[derive(Debug, Clone, Copy, PartialEq, Eq, Hash, PartialOrd, Ord, Structural)]
pub enum Layer {
    /// The systems of the main stellar layer.
    A,
    /// The free-floating brown dwarfs.
    BrownDwarf,
}

/// A system could not be resolved.
#[derive(Debug, Clone, Copy, PartialEq, Eq, Hash, Structural)]
pub enum ResolveSystemError {
    /// No system has the identifier.
    NoSuchSystem,
    /// The identifier's layer is not generated.
    LayerNotGenerated(Layer),
}

} // verus!
