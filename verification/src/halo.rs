//! Whether a system has a cometary halo: a planet to scatter planetesimals into one.

use vstd::prelude::*;

use crate::quantity::{Quantity, Sign};

verus! {

/// Whether a system has a planet to scatter planetesimals into a halo: one over the scatterer
/// mass beyond its host's snow line.
#[derive(Debug, Clone, Copy, PartialEq, Eq, Hash, PartialOrd, Ord, Structural)]
pub enum Scatterer {
    /// No such planet: the system has no halo.
    Absent,
    /// At least one.
    Present,
}

impl Scatterer {
    /// Present if either is: for a system of several hosts, each judged against its own snow line.
    pub fn or(self, other: Self) -> (s: Self)
        ensures
            (s is Present) == (self is Present || other is Present),
    {
        match (self, other) {
            (Scatterer::Absent, Scatterer::Absent) => Scatterer::Absent,
            _ => Scatterer::Present,
        }
    }
}

/// Whether a value compares at or above zero: zero, a finite positive value or positive infinity.
pub open spec fn at_least_zero(sign: Sign) -> bool {
    sign is Zero || sign is Positive || sign is PositiveInfinity
}

/// What a system's halo reads of its host, in the caller's type `Q`: the zero-age mass the halo
/// surrounds, the solids of that host's disc, the system's strip radius, and the pericentre
/// distance of its nearest wide companion's orbit, if any.
#[derive(Debug, Clone, Copy, PartialEq)]
pub struct HaloHost<Q> {
    mass: Q,
    disc_solids: Q,
    strip_radius: Q,
    companion: Option<Q>,
}

impl<Q> View for HaloHost<Q> {
    type V = (Q, Q, Q, Option<Q>);

    /// The mass, the disc's solids, the strip radius and the companion's distance.
    closed spec fn view(&self) -> (Q, Q, Q, Option<Q>) {
        (self.mass, self.disc_solids, self.strip_radius, self.companion)
    }
}

impl<Q: Copy> HaloHost<Q> {
    /// A host of zero-age mass `mass` whose disc held `disc_solids` of solids, in a system of
    /// strip radius `strip_radius`, with its nearest wide companion at `companion`: the mass and
    /// the strip radius above zero, the solids and the companion's distance not below it.
    pub fn new(
        mass: Quantity<Q>,
        disc_solids: Quantity<Q>,
        strip_radius: Quantity<Q>,
        companion: Option<Quantity<Q>>,
    ) -> (host: Self)
        requires
            mass.sign.above_zero(),
            strip_radius.sign.above_zero(),
            at_least_zero(disc_solids.sign),
            companion matches Some(d) ==> at_least_zero(d.sign),
        ensures
            host@ == (mass.value, disc_solids.value, strip_radius.value, match companion {
                Some(d) => Some(d.value),
                None => None::<Q>,
            }),
    {
        let companion = match companion {
            Some(d) => Some(d.value),
            None => None,
        };
        HaloHost {
            mass: mass.value,
            disc_solids: disc_solids.value,
            strip_radius: strip_radius.value,
            companion,
        }
    }

    /// The zero-age mass the halo surrounds.
    pub fn mass(&self) -> (m: Q)
        ensures
            m == self@.0,
    {
        self.mass
    }

    /// The solids of the host's disc.
    pub fn disc_solids(&self) -> (m: Q)
        ensures
            m == self@.1,
    {
        self.disc_solids
    }

    /// The system's strip radius.
    pub fn strip_radius(&self) -> (r: Q)
        ensures
            r == self@.2,
    {
        self.strip_radius
    }

    /// The pericentre distance of the nearest wide companion's orbit, if any.
    pub fn companion(&self) -> (d: Option<Q>)
        ensures
            d == self@.3,
    {
        self.companion
    }
}

} // verus!
