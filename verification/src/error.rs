//! The errors of body addressing: building a [`BodyIndex`](crate::index::BodyIndex) from its
//! parts, decoding one from its 16 bits, and resolving a body of a system.

use vstd::prelude::*;

use crate::id::ResolveSystemError;
use crate::index::{BodySlot, BodySub};

verus! {

/// A body index could not be built from a slot and a sub-index: the pair is not in the layout.
#[derive(Debug, Clone, Copy, PartialEq, Eq, Hash, Structural)]
pub enum EncodeBodyIndexError {
    /// The slot's number is outside its block: a planet is numbered 1–191, a second-generation
    /// planet and a belt 0–15.
    SlotOutOfRange(BodySlot),
    /// The sub-index's number is outside its block: a component is numbered 1–15, a moon 1–127,
    /// a ring 0–15 and a belt member 1–255.
    SubOutOfRange(BodySub),
    /// The kind of sub-index does not occur in the kind of slot: components belong to the
    /// stellar level, moons to planets, rings to planets and to a free-floating object, members
    /// to belts.
    SubNotInSlot {
        /// The slot.
        slot: BodySlot,
        /// The sub-index it cannot hold.
        sub: BodySub,
    },
}

/// Sixteen bits are not a body index of the layout.
///
/// A body ID accepts any `u16`; what the values mean, and which are unused, is the layout's.
#[derive(Debug, Clone, Copy, PartialEq, Eq, Hash, Structural)]
pub enum DecodeBodyIndexError {
    /// The high byte is a reserved slot: `0xD0`–`0xDF` or `0xF0`–`0xFF`.
    ReservedSlot {
        /// The raw index.
        raw: u16,
    },
    /// The low byte is a sub-index its slot reserves: `0x10`–`0x7F` or `0x90`–`0xFF` of the
    /// stellar level, or `0x90`–`0xFF` of a planet.
    ReservedSub {
        /// The raw index.
        raw: u16,
    },
}

/// A body of a system could not be resolved: the system does not exist, its index is not in the
/// layout, or the system has no such body.
///
/// A body ID that arrives from outside the simulation (a save, the protocol, a designation typed
/// by a player) goes through this, because nothing outside can promise that it names a body.
#[derive(Debug, Clone, Copy, PartialEq, Eq, Hash, Structural)]
pub enum ResolveBodyError {
    /// The body's system does not resolve.
    NoSuchSystem(ResolveSystemError),
    /// The index decodes, but the system holds no body there.
    NoSuchBody,
    /// The index is not in the layout.
    MalformedIndex(DecodeBodyIndexError),
}

/// The error a [`ResolveBodyError`] wraps.
#[derive(Debug, Clone, Copy, PartialEq, Eq, Hash, Structural)]
pub enum ResolveBodyCause {
    /// The system's own error.
    System(ResolveSystemError),
    /// The decoding error of the index.
    Index(DecodeBodyIndexError),
}

impl ResolveBodyError {
    /// The error this one wraps: the system's or the index's, and none for a missing body.
    pub fn source(&self) -> (cause: Option<ResolveBodyCause>)
        ensures
            cause == match *self {
                ResolveBodyError::NoSuchSystem(e) => Some(ResolveBodyCause::System(e)),
                ResolveBodyError::MalformedIndex(e) => Some(ResolveBodyCause::Index(e)),
                ResolveBodyError::NoSuchBody => None::<ResolveBodyCause>,
            },
    {
        match *self {
            ResolveBodyError::NoSuchSystem(e) => Some(ResolveBodyCause::System(e)),
            ResolveBodyError::MalformedIndex(e) => Some(ResolveBodyCause::Index(e)),
            ResolveBodyError::NoSuchBody => None,
        }
    }
}

impl From<DecodeBodyIndexError> for ResolveBodyError {
    fn from(e: DecodeBodyIndexError) -> (r: Self) {
        ResolveBodyError::MalformedIndex(e)
    }
}

impl vstd::std_specs::convert::FromSpecImpl<DecodeBodyIndexError> for ResolveBodyError {
    open spec fn obeys_from_spec() -> bool {
        true
    }

    open spec fn from_spec(e: DecodeBodyIndexError) -> Self {
        ResolveBodyError::MalformedIndex(e)
    }
}

impl From<ResolveSystemError> for ResolveBodyError {
    fn from(e: ResolveSystemError) -> (r: Self) {
        ResolveBodyError::NoSuchSystem(e)
    }
}

impl vstd::std_specs::convert::FromSpecImpl<ResolveSystemError> for ResolveBodyError {
    open spec fn obeys_from_spec() -> bool {
        true
    }

    open spec fn from_spec(e: ResolveSystemError) -> Self {
        ResolveBodyError::NoSuchSystem(e)
    }
}

} // verus!
