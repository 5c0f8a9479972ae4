//! The layout of a body index: what the 16 bits of a body ID mean.
//!
//! The index is `slot << 8 | sub`, and it decodes without generating anything:
//!
//! | Slot          | Meaning                                 | Sub |
//! | ------------- | --------------------------------------- | --- |
//! | `0x00`        | The stellar level                       | `0x00` the primary, `0x01`–`0x0F` the other components; in a free-floating object's system `0x00` is the object and `0x80`–`0x8F` are its rings |
//! | `0x01`–`0xBF` | Primordial planets, in generation order | `0x00` the planet, `0x01`–`0x7F` moons, `0x80`–`0x8F` rings |
//! | `0xC0`–`0xCF` | Second-generation planets               | as for planets |
//! | `0xE0`–`0xEF` | Belts, discs and the cometary halo      | `0x00` the population, `0x01`–`0xFF` its named members |
//! | other         | Reserved                                | |
//!
//! Every other value is rejected: slots `0xD0`–`0xDF` and `0xF0`–`0xFF`, and the sub-indices a
//! slot reserves (`0x10`–`0x7F` and `0x90`–`0xFF` of the stellar level, `0x90`–`0xFF` of a
//! planet), so 33,936 of the 65,536 values are bodies.

use vstd::prelude::*;

use crate::error::{DecodeBodyIndexError, EncodeBodyIndexError};
use crate::id::{BodyId, SystemId};
use vstd::std_specs::convert::TryFromSpec;
use vstd::std_specs::convert::TryFromSpecImpl;

verus! {

/// The end of the stellar level's component block: components are sub-indices 0–15 of slot
/// `0x00`.
pub const STELLAR_SUB_END: u8 = 16;

/// The last primordial planet slot, `0xBF`: planets are slots 1–191.
pub const LAST_PLANET_SLOT: u8 = 0xBF;

/// The first second-generation planet slot, `0xC0`; there are sixteen.
pub const SECOND_GENERATION_SLOT_START: u8 = 0xC0;

/// The first belt slot, `0xE0`; there are sixteen.
pub const BELT_SLOT_START: u8 = 0xE0;

/// Slots in the second-generation block and in the belt block, and rings of a planet or of a
/// free-floating object.
pub const BLOCK_LEN: u8 = 16;

/// The last moon sub-index of a planet, `0x7F`: moons are sub-indices 1–127.
pub const LAST_MOON_SUB: u8 = 0x7F;

/// The first ring sub-index, `0x80`, of a planet or of a free-floating object.
pub const RING_SUB_START: u8 = 0x80;

/// The high byte of a body index: which level of the system it belongs to.
///
/// The variants are declared, and so order, as their slots do. Each variant carries the body's
/// number in its block: a planet is `Planet(n)` in slot n (1–191, in generation order), a
/// second-generation planet `SecondGeneration(n)` in slot `0xC0` + n and a belt `Belt(n)` in slot
/// `0xE0` + n (0–15 both).
#[derive(Debug, Clone, Copy, PartialEq, Eq, Hash, PartialOrd, Ord, Structural)]
pub enum BodySlot {
    /// Slot `0x00`: the stars and brown-dwarf components, or a free-floating object.
    Stellar,
    /// A primordial planet, slots 1–191.
    Planet(u8),
    /// A second-generation planet, slots `0xC0`–`0xCF`.
    SecondGeneration(u8),
    /// A belt, a disc or the cometary halo, slots `0xE0`–`0xEF`.
    Belt(u8),
}

/// The low byte of a body index: which body of its slot.
///
/// Each variant carries the body's number in its block: `Component(n)`, `Moon(n)` and
/// `Member(n)` are sub-index n (1–15, 1–127 and 1–255), and `Ring(n)` is sub-index `0x80` + n
/// (0–15).
#[derive(Debug, Clone, Copy, PartialEq, Eq, Hash, PartialOrd, Ord, Structural)]
pub enum BodySub {
    /// Sub-index 0: the slot's own body. The primary star or the free-floating object of the
    /// stellar level, the planet itself, or a belt's population.
    Primary,
    /// A component of the stellar level other than the primary, 1–15 in hierarchy order.
    Component(u8),
    /// A moon of a planet, 1–127.
    Moon(u8),
    /// A ring of a planet, or of a free-floating object at the stellar level, 0–15.
    Ring(u8),
    /// A named member of a belt, 1–255.
    Member(u8),
}

/// The high byte of a 16-bit value.
pub open spec fn high_byte(raw: u16) -> int {
    raw as int / 256
}

/// The low byte of a 16-bit value.
pub open spec fn low_byte(raw: u16) -> int {
    raw as int % 256
}

/// Whether `raw` is a body of the layout table, read from the table alone.
pub open spec fn in_layout(raw: u16) -> bool {
    let slot = high_byte(raw);
    let sub = low_byte(raw);
    let planet_sub = sub <= 0x7f || (0x80 <= sub <= 0x8f);
    if slot == 0 {
        sub <= 0x0f || (0x80 <= sub <= 0x8f)
    } else if 0x01 <= slot <= 0xcf {
        planet_sub
    } else {
        0xe0 <= slot <= 0xef
    }
}

/// The high byte of a slot, or `None` where its number is outside its block.
pub open spec fn slot_byte(slot: BodySlot) -> Option<int> {
    match slot {
        BodySlot::Stellar => Some(0),
        BodySlot::Planet(n) => if 1 <= n <= 0xbf { Some(n as int) } else { None },
        BodySlot::SecondGeneration(n) => if n < 16 { Some(0xc0 + n) } else { None },
        BodySlot::Belt(n) => if n < 16 { Some(0xe0 + n) } else { None },
    }
}

/// Whether a sub-index of the kind of `sub` occurs in a slot of the kind of `slot`.
pub open spec fn sub_fits_slot(slot: BodySlot, sub: BodySub) -> bool {
    match sub {
        BodySub::Primary => true,
        BodySub::Component(_) => slot is Stellar,
        BodySub::Moon(_) => slot is Planet || slot is SecondGeneration,
        BodySub::Ring(_) => !(slot is Belt),
        BodySub::Member(_) => slot is Belt,
    }
}

/// The low byte of a sub-index, or `None` where its number is outside its block.
pub open spec fn sub_byte(sub: BodySub) -> Option<int> {
    match sub {
        BodySub::Primary => Some(0),
        BodySub::Component(n) => if 1 <= n < 16 { Some(n as int) } else { None },
        BodySub::Moon(n) => if 1 <= n <= 0x7f { Some(n as int) } else { None },
        BodySub::Ring(n) => if n < 16 { Some(0x80 + n) } else { None },
        BodySub::Member(n) => if n >= 1 { Some(n as int) } else { None },
    }
}

/// The index of `sub` in `slot`, or the first thing wrong with the pair: the slot's number, then
/// the kind of sub-index, then the sub-index's number.
pub open spec fn encode(slot: BodySlot, sub: BodySub) -> Result<u16, EncodeBodyIndexError> {
    match slot_byte(slot) {
        None => Err(EncodeBodyIndexError::SlotOutOfRange(slot)),
        Some(high) => if !sub_fits_slot(slot, sub) {
            Err(EncodeBodyIndexError::SubNotInSlot { slot, sub })
        } else {
            match sub_byte(sub) {
                None => Err(EncodeBodyIndexError::SubOutOfRange(sub)),
                Some(low) => Ok((high * 256 + low) as u16),
            }
        },
    }
}

/// The sub-index of a planet's slot that the low byte `sub` names, if any.
pub open spec fn planet_sub(sub: int) -> Option<BodySub> {
    if sub == 0 {
        Some(BodySub::Primary)
    } else if sub <= 0x7f {
        Some(BodySub::Moon(sub as u8))
    } else if sub <= 0x8f {
        Some(BodySub::Ring((sub - 0x80) as u8))
    } else {
        None
    }
}

/// The slot and sub-index that `raw` names, or what of it is reserved.
pub open spec fn decode(raw: u16) -> Result<(BodySlot, BodySub), DecodeBodyIndexError> {
    let slot = high_byte(raw);
    let sub = low_byte(raw);
    if slot == 0 {
        if sub == 0 {
            Ok((BodySlot::Stellar, BodySub::Primary))
        } else if sub < 16 {
            Ok((BodySlot::Stellar, BodySub::Component(sub as u8)))
        } else if 0x80 <= sub <= 0x8f {
            Ok((BodySlot::Stellar, BodySub::Ring((sub - 0x80) as u8)))
        } else {
            Err(DecodeBodyIndexError::ReservedSub { raw })
        }
    } else if slot <= 0xcf {
        let s = if slot <= 0xbf {
            BodySlot::Planet(slot as u8)
        } else {
            BodySlot::SecondGeneration((slot - 0xc0) as u8)
        };
        match planet_sub(sub) {
            Some(b) => Ok((s, b)),
            None => Err(DecodeBodyIndexError::ReservedSub { raw }),
        }
    } else if 0xe0 <= slot <= 0xef {
        let b = if sub == 0 { BodySub::Primary } else { BodySub::Member(sub as u8) };
        Ok((BodySlot::Belt((slot - 0xe0) as u8), b))
    } else {
        Err(DecodeBodyIndexError::ReservedSlot { raw })
    }
}

/// The order key of a slot: its variant first, then its number, as the slots are declared.
pub open spec fn slot_key(slot: BodySlot) -> int {
    match slot {
        BodySlot::Stellar => 0,
        BodySlot::Planet(n) => 0x100 + n,
        BodySlot::SecondGeneration(n) => 0x200 + n,
        BodySlot::Belt(n) => 0x300 + n,
    }
}

/// A body index in the layout: `slot << 8 | sub`.
///
/// Every value of the type is canonical: it is built by [`BodyIndex::new`] or checked by
/// [`BodyIndex::try_from`], so [`slot`](Self::slot) and [`sub`](Self::sub) cannot fail. Indices
/// order by their raw value, which is the order a system lists its bodies in: the stellar level,
/// the planets in generation order each followed by its moons and rings, the second-generation
/// planets, then the belts.
#[derive(Debug, Clone, Copy, PartialEq, Eq, Hash, PartialOrd, Ord, Structural)]
pub struct BodyIndex(u16);

impl View for BodyIndex {
    type V = u16;

    closed spec fn view(&self) -> u16 {
        self.0
    }
}

impl BodyIndex {
    /// Every index is in the layout.
    #[verifier::type_invariant]
    spec fn canonical(self) -> bool {
        in_layout(self.0)
    }

    /// Body `0x0000`: a system's primary star, or a free-floating object.
    pub fn primary() -> (index: Self)
        ensures
            index@ == 0,
    {
        BodyIndex(0)
    }

    /// The index of `sub` in `slot`.
    ///
    /// # Errors
    ///
    /// - [`EncodeBodyIndexError::SlotOutOfRange`] if the slot's number is outside its block.
    /// - [`EncodeBodyIndexError::SubNotInSlot`] if the kind of sub-index does not occur in the
    ///   kind of slot, such as a moon of the stellar level or a ring of a belt.
    /// - [`EncodeBodyIndexError::SubOutOfRange`] if the sub-index's number is outside its block.
    pub fn new(slot: BodySlot, sub: BodySub) -> (r: Result<Self, EncodeBodyIndexError>)
        ensures
            r is Ok <==> encode(slot, sub) is Ok,
            r matches Ok(index) ==> encode(slot, sub) == Ok::<u16, EncodeBodyIndexError>(index@),
            r matches Err(e) ==> encode(slot, sub) == Err::<u16, EncodeBodyIndexError>(e),
    {
        let high: u8 = match slot {
            BodySlot::Stellar => 0,
            BodySlot::Planet(n) => {
                if 1 <= n && n <= LAST_PLANET_SLOT {
                    n
                } else {
                    return Err(EncodeBodyIndexError::SlotOutOfRange(slot));
                }
            },
            BodySlot::SecondGeneration(n) => {
                if n < BLOCK_LEN {
                    SECOND_GENERATION_SLOT_START + n
                } else {
                    return Err(EncodeBodyIndexError::SlotOutOfRange(slot));
                }
            },
            BodySlot::Belt(n) => {
                if n < BLOCK_LEN {
                    BELT_SLOT_START + n
                } else {
                    return Err(EncodeBodyIndexError::SlotOutOfRange(slot));
                }
            },
        };
        let allowed = match sub {
            BodySub::Primary => true,
            BodySub::Component(_) => matches!(slot, BodySlot::Stellar),
            BodySub::Moon(_) => matches!(slot, BodySlot::Planet(_) | BodySlot::SecondGeneration(_)),
            BodySub::Ring(_) => !matches!(slot, BodySlot::Belt(_)),
            BodySub::Member(_) => matches!(slot, BodySlot::Belt(_)),
        };
        if !allowed {
            return Err(EncodeBodyIndexError::SubNotInSlot { slot, sub });
        }
        let low: u8 = match sub {
            BodySub::Primary => 0,
            BodySub::Component(n) => {
                if 1 <= n && n < STELLAR_SUB_END {
                    n
                } else {
                    return Err(EncodeBodyIndexError::SubOutOfRange(sub));
                }
            },
            BodySub::Moon(n) => {
                if 1 <= n && n <= LAST_MOON_SUB {
                    n
                } else {
                    return Err(EncodeBodyIndexError::SubOutOfRange(sub));
                }
            },
            BodySub::Ring(n) => {
                if n < BLOCK_LEN {
                    RING_SUB_START + n
                } else {
                    return Err(EncodeBodyIndexError::SubOutOfRange(sub));
                }
            },
            BodySub::Member(n) => {
                if n >= 1 {
                    n
                } else {
                    return Err(EncodeBodyIndexError::SubOutOfRange(sub));
                }
            },
        };
        let raw: u16 = (high as u16) * 256 + (low as u16);
        proof {
            lemma_encode_then_decode(slot, sub);
        }
        Ok(BodyIndex(raw))
    }

    /// The slot and sub-index that `raw` encodes.
    ///
    /// # Errors
    ///
    /// - [`DecodeBodyIndexError::ReservedSlot`] if the high byte is `0xD0`–`0xDF` or
    ///   `0xF0`–`0xFF`.
    /// - [`DecodeBodyIndexError::ReservedSub`] if the low byte is a sub-index its slot reserves.
    pub fn decode(raw: u16) -> (r: Result<(BodySlot, BodySub), DecodeBodyIndexError>)
        ensures
            r == decode(raw),
            r is Ok <==> in_layout(raw),
    {
        let high: u8 = (raw / 256) as u8;
        let low: u8 = (raw % 256) as u8;
        let reserved_sub = DecodeBodyIndexError::ReservedSub { raw };
        if high == 0 {
            let sub = if low == 0 {
                BodySub::Primary
            } else if low < STELLAR_SUB_END {
                BodySub::Component(low)
            } else if RING_SUB_START <= low && low < RING_SUB_START + BLOCK_LEN {
                BodySub::Ring(low - RING_SUB_START)
            } else {
                return Err(reserved_sub);
            };
            Ok((BodySlot::Stellar, sub))
        } else if high < BELT_SLOT_START - BLOCK_LEN {
            let slot = if high <= LAST_PLANET_SLOT {
                BodySlot::Planet(high)
            } else {
                BodySlot::SecondGeneration(high - SECOND_GENERATION_SLOT_START)
            };
            let sub = if low == 0 {
                BodySub::Primary
            } else if low <= LAST_MOON_SUB {
                BodySub::Moon(low)
            } else if low < RING_SUB_START + BLOCK_LEN {
                BodySub::Ring(low - RING_SUB_START)
            } else {
                return Err(reserved_sub);
            };
            Ok((slot, sub))
        } else if BELT_SLOT_START <= high && high < BELT_SLOT_START + BLOCK_LEN {
            let sub = if low == 0 {
                BodySub::Primary
            } else {
                BodySub::Member(low)
            };
            Ok((BodySlot::Belt(high - BELT_SLOT_START), sub))
        } else {
            Err(DecodeBodyIndexError::ReservedSlot { raw })
        }
    }

    /// The raw 16 bits, as a body ID holds them.
    pub fn get(self) -> (raw: u16)
        ensures
            raw == self@,
            in_layout(raw),
    {
        proof {
            use_type_invariant(self);
        }
        self.0
    }

    /// The slot and sub-index, which cannot fail for a value of the type.
    fn parts(self) -> (parts: (BodySlot, BodySub))
        ensures
            decode(self@) == Ok::<(BodySlot, BodySub), DecodeBodyIndexError>(parts),
    {
        proof {
            use_type_invariant(self);
        }
        match Self::decode(self.0) {
            Ok(parts) => parts,
            Err(_) => {
                proof {
                    assert(false);
                }
                (BodySlot::Stellar, BodySub::Primary)
            },
        }
    }

    /// The body's slot.
    pub fn slot(self) -> (slot: BodySlot)
        ensures
            decode(self@) matches Ok((s, _)) && s == slot,
    {
        self.parts().0
    }

    /// The body's sub-index within its slot.
    pub fn sub(self) -> (sub: BodySub)
        ensures
            decode(self@) matches Ok((_, b)) && b == sub,
    {
        self.parts().1
    }

    /// The body this one belongs to, where the index alone says: a moon's or a ring's parent is
    /// its planet (sub-index 0 of its slot), a ring of the stellar level belongs to the
    /// free-floating object at `0x0000`, and a belt member to its belt's population.
    ///
    /// `None` for a body whose parent the system resolves: a planet orbits a host that placement
    /// chose, a component of the stellar level sits in the stellar hierarchy, and a primary star
    /// or a belt's population has no parent body.
    pub fn parent(self) -> (parent: Option<Self>)
        ensures
            parent is Some <==> (decode(self@) matches Ok((_, b)) && (b is Moon || b is Ring
                || b is Member)),
            parent matches Some(p) ==> p@ == high_byte(self@) * 256,
    {
        proof {
            use_type_invariant(self);
        }
        match self.sub() {
            BodySub::Primary | BodySub::Component(_) => None,
            BodySub::Moon(_) | BodySub::Ring(_) | BodySub::Member(_) => {
                let raw: u16 = (self.0 / 256) * 256;
                Some(BodyIndex(raw))
            },
        }
    }

    /// The body's ID in `system`.
    pub fn body_id(self, system: SystemId) -> (id: BodyId)
        ensures
            id@ == (system, self@),
    {
        BodyId::new(system, self.0)
    }

}

impl TryFrom<u16> for BodyIndex {
    type Error = DecodeBodyIndexError;

    /// The index `raw`, if it is in the layout.
    fn try_from(raw: u16) -> (r: Result<Self, DecodeBodyIndexError>) {
        match Self::decode(raw) {
            Ok(_) => Ok(BodyIndex(raw)),
            Err(e) => Err(e),
        }
    }
}

impl TryFromSpecImpl<u16> for BodyIndex {
    open spec fn obeys_try_from_spec() -> bool {
        true
    }

    /// The index of `raw` where it decodes, and its decoding error otherwise.
    closed spec fn try_from_spec(raw: u16) -> Result<Self, DecodeBodyIndexError> {
        match decode(raw) {
            Ok(_) => Ok(BodyIndex(raw)),
            Err(e) => Err(e),
        }
    }
}

impl From<BodyIndex> for u16 {
    /// The raw 16 bits.
    fn from(index: BodyIndex) -> (raw: u16) {
        index.0
    }
}

impl vstd::std_specs::convert::FromSpecImpl<BodyIndex> for u16 {
    open spec fn obeys_from_spec() -> bool {
        true
    }

    open spec fn from_spec(index: BodyIndex) -> u16 {
        index@
    }
}

/// What the conversion from 16 bits gives: the index of the same bits where they are in the
/// layout, and the decoding error otherwise.
pub proof fn lemma_try_from(raw: u16)
    ensures
        <BodyIndex as TryFromSpec<u16>>::obeys_try_from_spec(),
        <BodyIndex as TryFromSpec<u16>>::try_from_spec(raw) is Ok <==> in_layout(raw),
        <BodyIndex as TryFromSpec<u16>>::try_from_spec(raw) matches Ok(index) ==> index@ == raw,
        <BodyIndex as TryFromSpec<u16>>::try_from_spec(raw) matches Err(e) ==> decode(raw)
            == Err::<(BodySlot, BodySub), DecodeBodyIndexError>(e),
{
}

/// Decoding then encoding gives back the raw value: every body of the layout has exactly the
/// index its parts say.
pub proof fn lemma_decode_then_encode(raw: u16)
    ensures
        decode(raw) matches Ok((slot, sub)) ==> encode(slot, sub) == Ok::<
            u16,
            EncodeBodyIndexError,
        >(raw),
{
    if let Ok((slot, sub)) = decode(raw) {
        assert(raw as int == high_byte(raw) * 256 + low_byte(raw));
    }
}

/// Encoding then decoding gives back the pair, and the value lies in the layout table.
pub proof fn lemma_encode_then_decode(slot: BodySlot, sub: BodySub)
    ensures
        encode(slot, sub) matches Ok(raw) ==> in_layout(raw) && decode(raw) == Ok::<
            (BodySlot, BodySub),
            DecodeBodyIndexError,
        >((slot, sub)),
{
    if let Ok(raw) = encode(slot, sub) {
        let high = slot_byte(slot).unwrap();
        let low = sub_byte(sub).unwrap();
        assert(raw as int == high * 256 + low);
        assert(high_byte(raw) == high);
        assert(low_byte(raw) == low);
    }
}

/// A value decodes exactly when the layout table lists it.
pub proof fn lemma_decodes_exactly_the_table(raw: u16)
    ensures
        decode(raw) is Ok <==> in_layout(raw),
{
}

/// The parent of a body of the layout is in the layout, in the same slot, at sub-index 0.
pub proof fn lemma_parent_in_same_slot(raw: u16)
    requires
        in_layout(raw),
    ensures
        ({
            let parent = (high_byte(raw) * 256) as u16;
            &&& in_layout(parent)
            &&& decode(raw) matches Ok((slot, _)) && decode(parent) == Ok::<
                (BodySlot, BodySub),
                DecodeBodyIndexError,
            >((slot, BodySub::Primary))
        }),
{
    let parent = (high_byte(raw) * 256) as u16;
    assert(high_byte(parent) == high_byte(raw));
    assert(low_byte(parent) == 0);
}

/// Indices order as a system lists its bodies: of two bodies of the layout, the later raw value
/// is never in an earlier slot, so sorting by slot keeps a system's list order.
pub proof fn lemma_slots_order_as_raw_values(a: u16, b: u16)
    requires
        in_layout(a),
        in_layout(b),
        a <= b,
    ensures
        decode(a) matches Ok((sa, _)) && decode(b) matches Ok((sb, _)) && slot_key(sa)
            <= slot_key(sb),
{
    assert(high_byte(a) <= high_byte(b)) by (nonlinear_arith)
        requires
            a <= b,
    ;
}

/// How many of the values below `n` are bodies of the layout.
pub open spec fn bodies_below(n: nat) -> nat
    decreases n,
{
    if n == 0 {
        0
    } else {
        bodies_below((n - 1) as nat) + if in_layout((n - 1) as u16) {
            1nat
        } else {
            0nat
        }
    }
}

/// How many of the first `k` sub-indices of the slot with high byte `slot` are bodies.
spec fn subs_below(slot: int, k: int) -> int {
    if slot == 0 {
        (if k < 16 { k } else { 16 }) + (if k <= 0x80 { 0 } else if k < 0x90 { k - 0x80 } else { 16 })
    } else if 1 <= slot <= 0xcf {
        if k < 0x90 { k } else { 0x90 }
    } else if 0xe0 <= slot <= 0xef {
        k
    } else {
        0
    }
}

/// How many bodies the slots below the high byte `h` hold.
spec fn bodies_in_slots_below(h: int) -> int {
    (if h > 0 { 32int } else { 0int }) + 144 * (if h <= 1 { 0 } else if h <= 0xd0 { h - 1 } else {
        0xcf
    }) + 256 * (if h <= 0xe0 { 0 } else if h <= 0xf0 { h - 0xe0 } else { 16 })
}

/// Counting through a slot adds its bodies one sub-index at a time.
proof fn lemma_count_through_slot(h: int, k: int)
    requires
        0 <= h < 256,
        0 <= k <= 256,
    ensures
        bodies_below((256 * h + k) as nat) == bodies_below((256 * h) as nat) + subs_below(h, k),
    decreases k,
{
    if k > 0 {
        lemma_count_through_slot(h, k - 1);
        let raw = (256 * h + k - 1) as u16;
        assert(raw as int == 256 * h + k - 1);
        assert(high_byte(raw) == h);
        assert(low_byte(raw) == k - 1);
    }
}

/// Counting through the slots adds each slot's bodies.
proof fn lemma_count_through_slots(h: int)
    requires
        0 <= h <= 256,
    ensures
        bodies_below((256 * h) as nat) == bodies_in_slots_below(h),
    decreases h,
{
    if h > 0 {
        lemma_count_through_slots(h - 1);
        lemma_count_through_slot(h - 1, 256);
        assert(256 * (h - 1) + 256 == 256 * h);
    }
}

/// 33,936 of the 65,536 values are bodies: the stellar level's 32, 144 in each of the 207
/// planet and second-generation slots, and 256 in each of the sixteen belt slots.
pub proof fn lemma_bodies_in_layout()
    ensures
        bodies_below(65536) == 33936,
{
    lemma_count_through_slots(256);
}

} // verus!
