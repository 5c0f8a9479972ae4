//! The limits about a planet: which way a satellite goes round, and what a tidal planet refuses.

use vstd::prelude::*;

use crate::quantity::{Quantity, Sign};
use crate::text::{error_style, literal};

verus! {

/// Which way a satellite goes round its planet, relative to the planet's orbit.
#[derive(Debug, Clone, Copy, PartialEq, Eq, Hash, PartialOrd, Ord, Structural)]
pub enum OrbitSense {
    /// The same way as the planet's orbit (inclination below 90°).
    Prograde,
    /// The opposite way (inclination above 90°), stable much farther out.
    Retrograde,
}

/// A tidal planet could not be built.
#[derive(Debug, Clone, Copy, PartialEq, Eq, Hash, Structural)]
pub enum BuildTidalPlanetError {
    /// The mass was not positive and finite.
    MassNotPositive,
    /// The radius was not positive and finite.
    RadiusNotPositive,
    /// The Love number was not positive and finite.
    LoveNumberNotPositive,
    /// The tidal quality factor was not positive and finite.
    TidalQNotPositive,
}

/// The message of a tidal planet error.
pub open spec fn tidal_planet_message(e: BuildTidalPlanetError) -> Seq<char> {
    match e {
        BuildTidalPlanetError::MassNotPositive => "a tidal planet's mass must be positive and finite"@,
        BuildTidalPlanetError::RadiusNotPositive => "a tidal planet's radius must be positive and finite"@,
        BuildTidalPlanetError::LoveNumberNotPositive => "a tidal planet's love number must be positive and finite"@,
        BuildTidalPlanetError::TidalQNotPositive => "a tidal planet's quality factor must be positive and finite"@,
    }
}

impl BuildTidalPlanetError {
    /// The error's message.
    pub fn message(&self) -> (s: String)
        ensures
            s@ == tidal_planet_message(*self),
            error_style(s@),
    {
        proof {
            reveal_strlit("a tidal planet's love number must be positive and finite");
            reveal_strlit("a tidal planet's mass must be positive and finite");
            reveal_strlit("a tidal planet's quality factor must be positive and finite");
            reveal_strlit("a tidal planet's radius must be positive and finite");
        }
        match self {
            BuildTidalPlanetError::MassNotPositive => literal("a tidal planet's mass must be positive and finite"),
            BuildTidalPlanetError::RadiusNotPositive => literal("a tidal planet's radius must be positive and finite"),
            BuildTidalPlanetError::LoveNumberNotPositive => literal("a tidal planet's love number must be positive and finite"),
            BuildTidalPlanetError::TidalQNotPositive => literal("a tidal planet's quality factor must be positive and finite"),
        }
    }
}

/// A planet as the tidal limits read it: its mass, radius, Love number and tidal quality factor,
/// in the caller's type `Q`.
#[derive(Debug, Clone, Copy, PartialEq)]
pub struct TidalPlanet<Q> {
    mass: Q,
    radius: Q,
    love_number: Q,
    tidal_q: Q,
}

impl<Q> View for TidalPlanet<Q> {
    type V = (Q, Q, Q, Q);

    /// The mass, the radius, the Love number and the tidal quality factor.
    closed spec fn view(&self) -> (Q, Q, Q, Q) {
        (self.mass, self.radius, self.love_number, self.tidal_q)
    }
}

/// The first of a tidal planet's mass, radius, Love number and tidal quality factor, of classes
/// `m`, `r`, `k` and `q`, that is not positive and finite.
pub open spec fn tidal_planet_check(m: Sign, r: Sign, k: Sign, q: Sign) -> Option<BuildTidalPlanetError> {
    if !m.positive_and_finite() {
        Some(BuildTidalPlanetError::MassNotPositive)
    } else if !r.positive_and_finite() {
        Some(BuildTidalPlanetError::RadiusNotPositive)
    } else if !k.positive_and_finite() {
        Some(BuildTidalPlanetError::LoveNumberNotPositive)
    } else if !q.positive_and_finite() {
        Some(BuildTidalPlanetError::TidalQNotPositive)
    } else {
        None
    }
}

impl<Q: Copy> TidalPlanet<Q> {
    /// A planet of mass `mass`, radius `radius`, Love number `love_number` (k₂, about 0.5 for a
    /// gas giant and 0.3 for Earth) and tidal quality factor `tidal_q` (about 10⁵ for Jupiter and
    /// 10–500 for a rocky planet).
    ///
    /// # Errors
    ///
    /// The [`BuildTidalPlanetError`] naming the first input that is not positive and finite.
    pub fn new(
        mass: Quantity<Q>,
        radius: Quantity<Q>,
        love_number: Quantity<Q>,
        tidal_q: Quantity<Q>,
    ) -> (r: Result<Self, BuildTidalPlanetError>)
        ensures
            match tidal_planet_check(mass.sign, radius.sign, love_number.sign, tidal_q.sign) {
                Some(e) => r == Err::<Self, BuildTidalPlanetError>(e),
                None => r matches Ok(p) && p@ == (
                    mass.value,
                    radius.value,
                    love_number.value,
                    tidal_q.value,
                ),
            },
    {
        if !mass.sign.is_positive_and_finite() {
            return Err(BuildTidalPlanetError::MassNotPositive);
        }
        if !radius.sign.is_positive_and_finite() {
            return Err(BuildTidalPlanetError::RadiusNotPositive);
        }
        if !love_number.sign.is_positive_and_finite() {
            return Err(BuildTidalPlanetError::LoveNumberNotPositive);
        }
        if !tidal_q.sign.is_positive_and_finite() {
            return Err(BuildTidalPlanetError::TidalQNotPositive);
        }
        Ok(TidalPlanet {
            mass: mass.value,
            radius: radius.value,
            love_number: love_number.value,
            tidal_q: tidal_q.value,
        })
    }

    /// The planet's mass.
    pub fn mass(&self) -> (m: Q)
        ensures
            m == self@.0,
    {
        self.mass
    }

    /// The planet's radius.
    pub fn radius(&self) -> (r: Q)
        ensures
            r == self@.1,
    {
        self.radius
    }

    /// The planet's Love number k₂.
    pub fn love_number(&self) -> (k: Q)
        ensures
            k == self@.2,
    {
        self.love_number
    }

    /// The planet's tidal quality factor.
    pub fn tidal_q(&self) -> (q: Q)
        ensures
            q == self@.3,
    {
        self.tidal_q
    }
}

/// A tidal planet is built exactly when its mass, radius, Love number and quality factor are all
/// finite and above zero; otherwise it is refused for the first of them, in that order, that is
/// not.
pub proof fn lemma_tidal_planet_refusals(m: Sign, r: Sign, k: Sign, q: Sign)
    ensures
        tidal_planet_check(m, r, k, q) is None <==> (m is Positive && r is Positive && k is Positive
            && q is Positive),
        tidal_planet_check(m, r, k, q) == Some(BuildTidalPlanetError::MassNotPositive) <==> !(
        m is Positive),
        tidal_planet_check(m, r, k, q) == Some(BuildTidalPlanetError::RadiusNotPositive) <==> (
        m is Positive && !(r is Positive)),
        tidal_planet_check(m, r, k, q) == Some(BuildTidalPlanetError::LoveNumberNotPositive) <==> (
        m is Positive && r is Positive && !(k is Positive)),
        tidal_planet_check(m, r, k, q) == Some(BuildTidalPlanetError::TidalQNotPositive) <==> (
        m is Positive && r is Positive && k is Positive && !(q is Positive)),
{
}

} // verus!
