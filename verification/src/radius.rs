//! The mass–radius relation's kinds: Chen and Kipping's classes of body, and what the core and
//! giant radius models refuse.

use vstd::prelude::*;

use crate::quantity::{Quantity, Sign};
use crate::text::{error_style, frame, framed, lemma_framed_in_error_style, literal};

verus! {

/// Chen and Kipping's four classes of body, each a segment of their broken power law, named for a
/// typical member.
#[derive(Debug, Clone, Copy, PartialEq, Eq, Hash, PartialOrd, Ord, Structural)]
pub enum MassRadiusClass {
    /// Below 2.04 M⊕: rocky worlds such as Earth.
    Terran,
    /// From 2.04 M⊕ to 0.414 Jupiter masses: worlds with volatile envelopes, such as Neptune.
    Neptunian,
    /// From 0.414 Jupiter masses to 0.08 solar masses: gas giants and brown dwarfs, whose radius
    /// barely changes with mass.
    Jovian,
    /// From 0.08 solar masses: hydrogen-burning stars.
    Stellar,
}

/// A core composition could not be built.
#[derive(Debug, Clone, Copy, PartialEq, Eq, Hash, Structural)]
pub enum BuildCoreCompositionError {
    /// The core mass fraction was outside 0–1.
    CoreMassFractionOutOfRange,
    /// The water mass fraction was outside 0–1.
    WaterFractionOutOfRange,
}

/// The message of a core composition error.
pub open spec fn core_composition_message(e: BuildCoreCompositionError) -> Seq<char> {
    match e {
        BuildCoreCompositionError::CoreMassFractionOutOfRange => "a core mass fraction must lie in 0 to 1"@,
        BuildCoreCompositionError::WaterFractionOutOfRange => "a water mass fraction must lie in 0 to 1"@,
    }
}

impl BuildCoreCompositionError {
    /// The error's message.
    pub fn message(&self) -> (s: String)
        ensures
            s@ == core_composition_message(*self),
            error_style(s@),
    {
        proof {
            reveal_strlit("a core mass fraction must lie in 0 to 1");
            reveal_strlit("a water mass fraction must lie in 0 to 1");
        }
        match self {
            BuildCoreCompositionError::CoreMassFractionOutOfRange => literal("a core mass fraction must lie in 0 to 1"),
            BuildCoreCompositionError::WaterFractionOutOfRange => literal("a water mass fraction must lie in 0 to 1"),
        }
    }
}

/// A giant's radius could not be derived, for quantities measured in `Q`.
#[derive(Debug, Clone, Copy, PartialEq)]
pub enum DeriveGiantError<Q> {
    /// The mass is outside the giant planets' cooling fit, 0.3–13 Jupiter masses, or not a
    /// number.
    MassOutsideGiants(Q),
    /// The flux is negative or not finite.
    FluxNotValid(Q),
}

impl<Q: Copy> DeriveGiantError<Q> {
    /// The error's message, with the value written by `show`: such as `a flux of -1 earth fluxes
    /// is negative or not finite`.
    pub fn message<F: Fn(Q) -> String>(&self, show: F) -> (s: String)
        requires
            forall|q: Q| show.requires((q,)),
        ensures
            error_style(s@),
            match *self {
                DeriveGiantError::MassOutsideGiants(m) => framed(
                    s@,
                    "a mass of "@,
                    show,
                    m,
                    " earth masses is outside the giant planets' 0.3 to 13 Jupiter masses"@,
                ),
                DeriveGiantError::FluxNotValid(f) => framed(
                    s@,
                    "a flux of "@,
                    show,
                    f,
                    " earth fluxes is negative or not finite"@,
                ),
            },
    {
        let s = match *self {
            DeriveGiantError::MassOutsideGiants(m) => frame(
                "a mass of ",
                &show,
                m,
                " earth masses is outside the giant planets' 0.3 to 13 Jupiter masses",
            ),
            DeriveGiantError::FluxNotValid(f) => frame(
                "a flux of ",
                &show,
                f,
                " earth fluxes is negative or not finite",
            ),
        };
        proof {
            reveal_strlit("a mass of ");
            reveal_strlit(" earth masses is outside the giant planets' 0.3 to 13 Jupiter masses");
            reveal_strlit("a flux of ");
            reveal_strlit(" earth fluxes is negative or not finite");
            match *self {
                DeriveGiantError::MassOutsideGiants(m) => lemma_framed_in_error_style(
                    s@,
                    "a mass of "@,
                    show,
                    m,
                    " earth masses is outside the giant planets' 0.3 to 13 Jupiter masses"@,
                ),
                DeriveGiantError::FluxNotValid(f) => lemma_framed_in_error_style(
                    s@,
                    "a flux of "@,
                    show,
                    f,
                    " earth fluxes is negative or not finite"@,
                ),
            }
        }
        s
    }
}

/// A body's composition below any envelope: its water mass fraction, and the share of iron in
/// its rock and iron, both in 0–1, in the caller's type `Q`.
#[derive(Debug, Clone, Copy, PartialEq)]
pub struct CoreComposition<Q> {
    core_mass_fraction: Q,
    water_fraction: Q,
}

impl<Q> View for CoreComposition<Q> {
    type V = (Q, Q);

    /// The core mass fraction and the water mass fraction.
    closed spec fn view(&self) -> (Q, Q) {
        (self.core_mass_fraction, self.water_fraction)
    }
}

/// Whether a fraction of class `fraction`, whose complement to one is of class `room`, lies in
/// 0–1: neither is negative, and both are finite.
pub open spec fn within_unit(fraction: Sign, room: Sign) -> bool {
    fraction.finite_and_not_negative() && room.finite_and_not_negative()
}

/// The first of a core mass fraction and a water mass fraction, each of a class and with a
/// complement to one of a class, that lies outside 0–1.
pub open spec fn core_composition_check(
    core: Sign,
    core_room: Sign,
    water: Sign,
    water_room: Sign,
) -> Option<BuildCoreCompositionError> {
    if !within_unit(core, core_room) {
        Some(BuildCoreCompositionError::CoreMassFractionOutOfRange)
    } else if !within_unit(water, water_room) {
        Some(BuildCoreCompositionError::WaterFractionOutOfRange)
    } else {
        None
    }
}

impl<Q: Copy> CoreComposition<Q> {
    /// A body whose water mass fraction is `water_fraction` and whose rock and iron are
    /// `core_mass_fraction` iron, both in 0–1: each given with the class of one less it,
    /// `core_room` and `water_room`.
    ///
    /// # Errors
    ///
    /// The [`BuildCoreCompositionError`] naming the first fraction outside 0–1 (not a number
    /// included).
    pub fn new(
        core_mass_fraction: Quantity<Q>,
        core_room: Sign,
        water_fraction: Quantity<Q>,
        water_room: Sign,
    ) -> (r: Result<Self, BuildCoreCompositionError>)
        ensures
            match core_composition_check(
                core_mass_fraction.sign,
                core_room,
                water_fraction.sign,
                water_room,
            ) {
                Some(e) => r == Err::<Self, BuildCoreCompositionError>(e),
                None => r matches Ok(c) && c@ == (core_mass_fraction.value, water_fraction.value),
            },
    {
        if !(core_mass_fraction.sign.is_finite_and_not_negative()
            && core_room.is_finite_and_not_negative()) {
            return Err(BuildCoreCompositionError::CoreMassFractionOutOfRange);
        }
        if !(water_fraction.sign.is_finite_and_not_negative()
            && water_room.is_finite_and_not_negative()) {
            return Err(BuildCoreCompositionError::WaterFractionOutOfRange);
        }
        Ok(CoreComposition {
            core_mass_fraction: core_mass_fraction.value,
            water_fraction: water_fraction.value,
        })
    }

    /// The share of iron in the body's rock and iron.
    pub fn core_mass_fraction(&self) -> (f: Q)
        ensures
            f == self@.0,
    {
        self.core_mass_fraction
    }

    /// The body's water mass fraction.
    pub fn water_fraction(&self) -> (f: Q)
        ensures
            f == self@.1,
    {
        self.water_fraction
    }
}

/// A core composition is built exactly when each fraction and its room to one are finite and
/// not negative, so that the fraction lies in 0–1, its ends included; otherwise it is refused
/// for the core mass fraction where that one is out of range, and for the water fraction only
/// where the core mass fraction is in range and the water fraction is not.
pub proof fn lemma_core_composition_refusals(
    core: Sign,
    core_room: Sign,
    water: Sign,
    water_room: Sign,
)
    ensures
        core_composition_check(core, core_room, water, water_room) is None <==> ((core is Zero
            || core is Positive) && (core_room is Zero || core_room is Positive) && (water is Zero
            || water is Positive) && (water_room is Zero || water_room is Positive)),
        core_composition_check(core, core_room, water, water_room) == Some(
            BuildCoreCompositionError::CoreMassFractionOutOfRange,
        ) <==> !((core is Zero || core is Positive) && (core_room is Zero
            || core_room is Positive)),
        core_composition_check(core, core_room, water, water_room) == Some(
            BuildCoreCompositionError::WaterFractionOutOfRange,
        ) <==> ((core is Zero || core is Positive) && (core_room is Zero || core_room is Positive)
            && !((water is Zero || water is Positive) && (water_room is Zero
            || water_room is Positive))),
{
}

} // verus!
