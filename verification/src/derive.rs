//! What the derivation of a body reads and classes: the placed body, its hosts' errors, and the
//! class of a body by its bulk composition.

use vstd::prelude::*;

use crate::irradiation::{HostLight, Illumination};
use crate::quantity::Quantity;
use crate::composition::SolveCompositionError;
use crate::radius::DeriveGiantError;
use crate::text::{error_style, frame, framed, lemma_framed_in_error_style, literal};

verus! {

/// A body as placed, the derivation's input: its mass, its primordial orbit and its orbit at the
/// time, how far from its host it formed, and its drawn radius rank. Quantities are in the
/// caller's type `Q`, orbits in `O`.
#[derive(Debug, Clone, Copy, PartialEq)]
pub struct PlacedBody<Q, O> {
    mass: Q,
    orbit: O,
    orbit_now: O,
    formation_distance: Q,
    radius_rank: Q,
}

/// The view of a placed body: its mass, orbit, orbit now, formation distance and radius rank.
pub struct PlacedBodyView<Q, O> {
    /// The mass.
    pub mass: Q,
    /// The primordial orbit.
    pub orbit: O,
    /// The orbit at the time derived.
    pub orbit_now: O,
    /// The formation distance.
    pub formation_distance: Q,
    /// The radius rank.
    pub radius_rank: Q,
}

impl<Q, O> View for PlacedBody<Q, O> {
    type V = PlacedBodyView<Q, O>;

    closed spec fn view(&self) -> PlacedBodyView<Q, O> {
        PlacedBodyView {
            mass: self.mass,
            orbit: self.orbit,
            orbit_now: self.orbit_now,
            formation_distance: self.formation_distance,
            radius_rank: self.radius_rank,
        }
    }
}

/// A placed body could not be built.
#[derive(Debug, Clone, Copy, PartialEq, Eq, Hash, Structural)]
pub enum BuildPlacedBodyError {
    /// The mass was not positive and finite.
    MassNotPositive,
    /// The formation distance was not positive and finite.
    FormationDistanceNotPositive,
}

impl<Q: Copy, O: Copy> PlacedBody<Q, O> {
    /// A body of mass `mass` on the primordial orbit `orbit` about its primary, formed at
    /// `formation_distance` from its host, with radius rank `radius_rank`; its orbit at the time
    /// is `orbit` until [`with_orbit_now`](Self::with_orbit_now) says otherwise.
    ///
    /// # Errors
    ///
    /// [`BuildPlacedBodyError::MassNotPositive`] or
    /// [`BuildPlacedBodyError::FormationDistanceNotPositive`] for a value that is not positive
    /// and finite, the mass first.
    pub fn new(
        mass: Quantity<Q>,
        orbit: O,
        formation_distance: Quantity<Q>,
        radius_rank: Q,
    ) -> (r: Result<Self, BuildPlacedBodyError>)
        ensures
            !mass.sign.positive_and_finite() ==> r == Err::<Self, BuildPlacedBodyError>(
                BuildPlacedBodyError::MassNotPositive,
            ),
            mass.sign.positive_and_finite() && !formation_distance.sign.positive_and_finite()
                ==> r == Err::<Self, BuildPlacedBodyError>(
                BuildPlacedBodyError::FormationDistanceNotPositive,
            ),
            mass.sign.positive_and_finite() && formation_distance.sign.positive_and_finite() ==> (
            r matches Ok(b) && b@ == PlacedBodyView {
                mass: mass.value,
                orbit,
                orbit_now: orbit,
                formation_distance: formation_distance.value,
                radius_rank,
            }),
    {
        if !mass.sign.is_positive_and_finite() {
            return Err(BuildPlacedBodyError::MassNotPositive);
        }
        if !formation_distance.sign.is_positive_and_finite() {
            return Err(BuildPlacedBodyError::FormationDistanceNotPositive);
        }
        Ok(PlacedBody {
            mass: mass.value,
            orbit,
            orbit_now: orbit,
            formation_distance: formation_distance.value,
            radius_rank,
        })
    }

    /// The same body on `orbit_now` at the time derived: the fate transform's elements, such as
    /// an orbit widened by its host's mass loss.
    pub fn with_orbit_now(self, orbit_now: O) -> (b: Self)
        ensures
            b@ == (PlacedBodyView { orbit_now, ..self@ }),
    {
        PlacedBody { orbit_now, ..self }
    }

    /// The body's mass.
    pub fn mass(&self) -> (m: Q)
        ensures
            m == self@.mass,
    {
        self.mass
    }

    /// The body's primordial orbit about its primary, which what is fixed at formation reads.
    pub fn orbit(&self) -> (o: &O)
        ensures
            *o == self@.orbit,
    {
        &self.orbit
    }

    /// The body's orbit about its primary at the time derived.
    pub fn orbit_now(&self) -> (o: &O)
        ensures
            *o == self@.orbit_now,
    {
        &self.orbit_now
    }

    /// How far from its host the body formed, which the disc's snow line judges.
    pub fn formation_distance(&self) -> (d: Q)
        ensures
            d == self@.formation_distance,
    {
        self.formation_distance
    }

    /// The body's drawn radius rank, before the radius window confines it.
    pub fn radius_rank(&self) -> (u: Q)
        ensures
            u == self@.radius_rank,
    {
        self.radius_rank
    }
}

/// The message of a placed body error.
pub open spec fn placed_body_message(e: BuildPlacedBodyError) -> Seq<char> {
    match e {
        BuildPlacedBodyError::MassNotPositive => "a body's mass must be positive and finite"@,
        BuildPlacedBodyError::FormationDistanceNotPositive => "a body's formation distance must be positive and finite"@,
    }
}

impl BuildPlacedBodyError {
    /// The error's message.
    pub fn message(&self) -> (s: String)
        ensures
            s@ == placed_body_message(*self),
            error_style(s@),
    {
        proof {
            reveal_strlit("a body's formation distance must be positive and finite");
            reveal_strlit("a body's mass must be positive and finite");
        }
        match self {
            BuildPlacedBodyError::MassNotPositive => literal("a body's mass must be positive and finite"),
            BuildPlacedBodyError::FormationDistanceNotPositive => literal("a body's formation distance must be positive and finite"),
        }
    }
}

/// A body's hosts could not be built.
#[derive(Debug, Clone, Copy, PartialEq, Eq, Hash, Structural)]
pub enum BuildBodyHostsError {
    /// The primary's mass was not positive and finite.
    PrimaryMassNotPositive,
    /// No orbited host was given.
    NoOrbitedHost,
}

/// The message of a body hosts error.
pub open spec fn body_hosts_message(e: BuildBodyHostsError) -> Seq<char> {
    match e {
        BuildBodyHostsError::PrimaryMassNotPositive => "a body's primary mass must be positive and finite"@,
        BuildBodyHostsError::NoOrbitedHost => "a body must orbit at least one host"@,
    }
}

impl BuildBodyHostsError {
    /// The error's message.
    pub fn message(&self) -> (s: String)
        ensures
            s@ == body_hosts_message(*self),
            error_style(s@),
    {
        proof {
            reveal_strlit("a body must orbit at least one host");
            reveal_strlit("a body's primary mass must be positive and finite");
        }
        match self {
            BuildBodyHostsError::PrimaryMassNotPositive => literal("a body's primary mass must be positive and finite"),
            BuildBodyHostsError::NoOrbitedHost => literal("a body must orbit at least one host"),
        }
    }
}

/// What a body is, by its bulk composition: the class a body record shows at the bulk detail
/// level. A gas giant has no surface, an ice giant none either, and a sub-Neptune's is the floor
/// of its envelope.
#[derive(Debug, Clone, Copy, PartialEq, Eq, Hash, PartialOrd, Ord, Structural)]
pub enum PlanetClass {
    /// Iron and rock, with no more than a trace of water or hydrogen: Mercury to Earth, and dry
    /// super-Earths.
    Rocky,
    /// Rock and iron under a large share of water, with no more than a trace of hydrogen: water
    /// worlds, and icy moons such as Ganymede.
    Icy,
    /// A core under a hydrogen and helium envelope, lighter than an ice giant.
    SubNeptune,
    /// A heavy core under a thin envelope: Uranus and Neptune.
    IceGiant,
    /// A body mostly of hydrogen and helium: Saturn, and every giant.
    GasGiant,
}

impl PlanetClass {
    /// Whether a body of this class has a surface section: every class but the giants, whose
    /// section is not applicable.
    pub fn has_surface(self) -> (b: bool)
        ensures
            b == !(self is IceGiant || self is GasGiant),
    {
        match self {
            PlanetClass::Rocky | PlanetClass::Icy | PlanetClass::SubNeptune => true,
            PlanetClass::IceGiant | PlanetClass::GasGiant => false,
        }
    }
}

/// A body could not be derived at a time, for quantities in the caller's type `Q` and the giant
/// cooling model's errors in `C`.
#[derive(Debug, Clone, Copy, PartialEq)]
pub enum DeriveBodyError<Q, C> {
    /// The system is not yet born at the time: its age there is not positive. The fate transform
    /// calls such a body not yet formed, and derives nothing.
    NotYetFormed {
        /// The system's age at the time.
        age: Q,
    },
    /// A giant's radius or composition could not be derived: its mass is above 13 Jupiter masses,
    /// a brown dwarf's, which is no planet.
    Giant(DeriveGiantError<Q>),
    /// The cooling of giant planets refused the body's mass or age.
    GiantCooling(C),
    /// The composition solve refused its inputs.
    Composition(SolveCompositionError<Q>),
}

impl<Q: Copy, C> DeriveBodyError<Q, C> {
    /// The error's message, with the system's age written by `show`: such as `a body of a system
    /// aged -2000000 years has not formed`.
    pub fn message<F: Fn(Q) -> String>(&self, show: F) -> (s: String)
        requires
            forall|q: Q| show.requires((q,)),
        ensures
            error_style(s@),
            match *self {
                DeriveBodyError::NotYetFormed { age } => framed(
                    s@,
                    "a body of a system aged "@,
                    show,
                    age,
                    " years has not formed"@,
                ),
                DeriveBodyError::Giant(_) => s@
                    == "a giant's radius or composition could not be derived"@,
                DeriveBodyError::GiantCooling(_) => s@
                    == "a giant's cooling could not be evaluated"@,
                DeriveBodyError::Composition(_) => s@
                    == "the composition solve refused its inputs"@,
            },
    {
        let s = match self {
            DeriveBodyError::NotYetFormed { age } => frame(
                "a body of a system aged ",
                &show,
                *age,
                " years has not formed",
            ),
            DeriveBodyError::Giant(_) => literal(
                "a giant's radius or composition could not be derived",
            ),
            DeriveBodyError::GiantCooling(_) => literal("a giant's cooling could not be evaluated"),
            DeriveBodyError::Composition(_) => literal("the composition solve refused its inputs"),
        };
        proof {
            reveal_strlit("a body of a system aged ");
            reveal_strlit(" years has not formed");
            reveal_strlit("a giant's radius or composition could not be derived");
            reveal_strlit("a giant's cooling could not be evaluated");
            reveal_strlit("the composition solve refused its inputs");
            if let DeriveBodyError::NotYetFormed { age } = *self {
                lemma_framed_in_error_style(
                    s@,
                    "a body of a system aged "@,
                    show,
                    age,
                    " years has not formed"@,
                );
            }
        }
        s
    }
}

/// The error a [`DeriveBodyError`] wraps.
#[derive(Debug, Clone, Copy, PartialEq)]
pub enum DeriveBodyCause<Q, C> {
    /// The giant radius model's.
    Giant(DeriveGiantError<Q>),
    /// The giant cooling model's.
    GiantCooling(C),
    /// The composition solve's.
    Composition(SolveCompositionError<Q>),
}

impl<Q: Copy, C: Copy> DeriveBodyError<Q, C> {
    /// The error this one wraps, and none for a system not yet born.
    pub fn source(&self) -> (cause: Option<DeriveBodyCause<Q, C>>)
        ensures
            cause == match *self {
                DeriveBodyError::NotYetFormed { .. } => None::<DeriveBodyCause<Q, C>>,
                DeriveBodyError::Giant(e) => Some(DeriveBodyCause::Giant(e)),
                DeriveBodyError::GiantCooling(e) => Some(DeriveBodyCause::GiantCooling(e)),
                DeriveBodyError::Composition(e) => Some(DeriveBodyCause::Composition(e)),
            },
    {
        match *self {
            DeriveBodyError::NotYetFormed { .. } => None,
            DeriveBodyError::Giant(e) => Some(DeriveBodyCause::Giant(e)),
            DeriveBodyError::GiantCooling(e) => Some(DeriveBodyCause::GiantCooling(e)),
            DeriveBodyError::Composition(e) => Some(DeriveBodyCause::Composition(e)),
        }
    }
}

impl<Q, C> From<SolveCompositionError<Q>> for DeriveBodyError<Q, C> {
    /// The composition solve's refusal.
    fn from(e: SolveCompositionError<Q>) -> (d: Self) {
        DeriveBodyError::Composition(e)
    }
}

impl<Q, C> vstd::std_specs::convert::FromSpecImpl<SolveCompositionError<Q>> for DeriveBodyError<Q, C> {
    open spec fn obeys_from_spec() -> bool {
        true
    }

    open spec fn from_spec(e: SolveCompositionError<Q>) -> Self {
        DeriveBodyError::Composition(e)
    }
}

impl<Q, C> From<DeriveGiantError<Q>> for DeriveBodyError<Q, C> {
    /// The giant radius model's refusal.
    fn from(e: DeriveGiantError<Q>) -> (d: Self) {
        DeriveBodyError::Giant(e)
    }
}

impl<Q, C> vstd::std_specs::convert::FromSpecImpl<DeriveGiantError<Q>> for DeriveBodyError<Q, C> {
    open spec fn obeys_from_spec() -> bool {
        true
    }

    open spec fn from_spec(e: DeriveGiantError<Q>) -> Self {
        DeriveBodyError::Giant(e)
    }
}

/// Checks that the system of a body is born at the time, as the body's derivation does before
/// anything else: its age then, `age`, must be above zero.
///
/// # Errors
///
/// [`DeriveBodyError::NotYetFormed`] with that age where it is zero, negative or not a number.
pub fn check_formed<Q: Copy, C>(age: Quantity<Q>) -> (r: Result<(), DeriveBodyError<Q, C>>)
    ensures
        age.sign.above_zero() <==> r is Ok,
        !age.sign.above_zero() ==> r == Err::<(), DeriveBodyError<Q, C>>(
            DeriveBodyError::NotYetFormed { age: age.value },
        ),
{
    if !age.sign.is_above_zero() {
        return Err(DeriveBodyError::NotYetFormed { age: age.value });
    }
    Ok(())
}

/// What a body's derivation needs of its hosts: the mass it orbits, the host's composition, the
/// hosts it orbits and the companions that light it from afar.
#[derive(Debug, Clone, Copy)]
pub struct BodyHosts<'a, Q, C> {
    primary_mass: Q,
    composition: C,
    orbited: &'a [HostLight<Q>],
    companions: &'a [Illumination<Q>],
}

impl<'a, Q, C> View for BodyHosts<'a, Q, C> {
    type V = (Q, C, Seq<HostLight<Q>>, Seq<Illumination<Q>>);

    /// The primary's mass, the composition, the orbited hosts and the companions.
    closed spec fn view(&self) -> (Q, C, Seq<HostLight<Q>>, Seq<Illumination<Q>>) {
        (self.primary_mass, self.composition, self.orbited@, self.companions@)
    }
}

impl<'a, Q: Copy, C: Copy> BodyHosts<'a, Q, C> {
    /// The hosts of a body that orbits the mass `primary_mass` (the sum of its host stars'), of
    /// host composition `composition`, lit by `orbited`, the hosts it orbits, and by `companions`,
    /// the light of companions it does not orbit. A dark host, a black hole, is a [`HostLight`]
    /// of zero luminosity.
    ///
    /// # Errors
    ///
    /// [`BuildBodyHostsError::PrimaryMassNotPositive`] for a mass that is not positive and finite,
    /// and [`BuildBodyHostsError::NoOrbitedHost`] for an empty `orbited`.
    pub fn new(
        primary_mass: Quantity<Q>,
        composition: C,
        orbited: &'a [HostLight<Q>],
        companions: &'a [Illumination<Q>],
    ) -> (r: Result<Self, BuildBodyHostsError>)
        ensures
            !primary_mass.sign.positive_and_finite() ==> r == Err::<Self, BuildBodyHostsError>(
                BuildBodyHostsError::PrimaryMassNotPositive,
            ),
            primary_mass.sign.positive_and_finite() && orbited@.len() == 0 ==> r == Err::<
                Self,
                BuildBodyHostsError,
            >(BuildBodyHostsError::NoOrbitedHost),
            primary_mass.sign.positive_and_finite() && orbited@.len() > 0 ==> (r matches Ok(h)
                && h@ == (primary_mass.value, composition, orbited@, companions@)),
    {
        if !primary_mass.sign.is_positive_and_finite() {
            return Err(BuildBodyHostsError::PrimaryMassNotPositive);
        }
        if orbited.len() == 0 {
            return Err(BuildBodyHostsError::NoOrbitedHost);
        }
        Ok(BodyHosts { primary_mass: primary_mass.value, composition, orbited, companions })
    }

    /// The mass the body orbits.
    pub fn primary_mass(&self) -> (m: Q)
        ensures
            m == self@.0,
    {
        self.primary_mass
    }

    /// The host's composition.
    pub fn composition(&self) -> (c: C)
        ensures
            c == self@.1,
    {
        self.composition
    }

    /// The hosts the body orbits.
    pub fn orbited(&self) -> (o: &'a [HostLight<Q>])
        ensures
            o@ == self@.2,
    {
        self.orbited
    }

    /// The light of the companions the body does not orbit.
    pub fn companions(&self) -> (c: &'a [Illumination<Q>])
        ensures
            c@ == self@.3,
    {
        self.companions
    }
}

} // verus!
