//! What a protoplanetary disc reads of its host, and the radii it is cut to.

use vstd::prelude::*;

use crate::quantity::{Quantity, Sign};
use crate::text::{error_style, literal};

verus! {

/// What the disc reads of its host, all fixed at the zero-age main sequence: its mass, [Fe/H],
/// luminosity and radius, in the caller's type `Q`.
#[derive(Debug, Clone, Copy, PartialEq)]
pub struct DiscHost<Q> {
    mass: Q,
    fe_h: Q,
    zams_luminosity: Q,
    zams_radius: Q,
}

impl<Q> View for DiscHost<Q> {
    type V = (Q, Q, Q, Q);

    /// The mass, [Fe/H], zero-age luminosity and zero-age radius.
    closed spec fn view(&self) -> (Q, Q, Q, Q) {
        (self.mass, self.fe_h, self.zams_luminosity, self.zams_radius)
    }
}

/// A disc host could not be built.
#[derive(Debug, Clone, Copy, PartialEq, Eq, Hash, Structural)]
pub enum BuildDiscHostError {
    /// The mass was not positive and finite.
    MassNotPositive,
    /// [Fe/H] was not finite.
    MetallicityNotFinite,
    /// The zero-age luminosity was not positive and finite.
    LuminosityNotPositive,
    /// The zero-age radius was not positive and finite.
    RadiusNotPositive,
}

/// The first thing wrong with a disc host whose values have the classes given.
pub open spec fn disc_host_check(mass: Sign, fe_h: Sign, luminosity: Sign, radius: Sign) -> Option<
    BuildDiscHostError,
> {
    if !mass.positive_and_finite() {
        Some(BuildDiscHostError::MassNotPositive)
    } else if !fe_h.finite() {
        Some(BuildDiscHostError::MetallicityNotFinite)
    } else if !luminosity.positive_and_finite() {
        Some(BuildDiscHostError::LuminosityNotPositive)
    } else if !radius.positive_and_finite() {
        Some(BuildDiscHostError::RadiusNotPositive)
    } else {
        None
    }
}

impl<Q: Copy> DiscHost<Q> {
    /// A host of mass `mass`, iron abundance `fe_h`, zero-age luminosity `zams_luminosity` and
    /// zero-age radius `zams_radius`.
    ///
    /// # Errors
    ///
    /// - [`BuildDiscHostError::MassNotPositive`] unless the mass is positive and finite.
    /// - [`BuildDiscHostError::MetallicityNotFinite`] if [Fe/H] is not finite.
    /// - [`BuildDiscHostError::LuminosityNotPositive`] unless the luminosity is positive and
    ///   finite.
    /// - [`BuildDiscHostError::RadiusNotPositive`] unless the radius is positive and finite.
    pub fn new(
        mass: Quantity<Q>,
        fe_h: Quantity<Q>,
        zams_luminosity: Quantity<Q>,
        zams_radius: Quantity<Q>,
    ) -> (r: Result<Self, BuildDiscHostError>)
        ensures
            match disc_host_check(mass.sign, fe_h.sign, zams_luminosity.sign, zams_radius.sign) {
                Some(e) => r == Err::<Self, BuildDiscHostError>(e),
                None => r matches Ok(h) && h@ == (
                    mass.value,
                    fe_h.value,
                    zams_luminosity.value,
                    zams_radius.value,
                ),
            },
    {
        if !mass.sign.is_positive_and_finite() {
            return Err(BuildDiscHostError::MassNotPositive);
        }
        if !fe_h.sign.is_finite() {
            return Err(BuildDiscHostError::MetallicityNotFinite);
        }
        if !zams_luminosity.sign.is_positive_and_finite() {
            return Err(BuildDiscHostError::LuminosityNotPositive);
        }
        if !zams_radius.sign.is_positive_and_finite() {
            return Err(BuildDiscHostError::RadiusNotPositive);
        }
        Ok(DiscHost {
            mass: mass.value,
            fe_h: fe_h.value,
            zams_luminosity: zams_luminosity.value,
            zams_radius: zams_radius.value,
        })
    }

    /// The host's mass: a star's initial mass, or a pair's total for a circumbinary disc.
    pub fn mass(&self) -> (m: Q)
        ensures
            m == self@.0,
    {
        self.mass
    }

    /// The host's [Fe/H], dex relative to the Sun, as drawn.
    pub fn fe_h(&self) -> (z: Q)
        ensures
            z == self@.1,
    {
        self.fe_h
    }

    /// The host's zero-age main-sequence luminosity.
    pub fn zams_luminosity(&self) -> (l: Q)
        ensures
            l == self@.2,
    {
        self.zams_luminosity
    }

    /// The host's zero-age main-sequence radius.
    pub fn zams_radius(&self) -> (r: Q)
        ensures
            r == self@.3,
    {
        self.zams_radius
    }
}

/// The message of a disc host error.
pub open spec fn disc_host_message(e: BuildDiscHostError) -> Seq<char> {
    match e {
        BuildDiscHostError::MassNotPositive => "a disc host's mass must be positive and finite"@,
        BuildDiscHostError::MetallicityNotFinite => "a disc host's [Fe/H] must be finite"@,
        BuildDiscHostError::LuminosityNotPositive => "a disc host's luminosity must be positive and finite"@,
        BuildDiscHostError::RadiusNotPositive => "a disc host's radius must be positive and finite"@,
    }
}

impl BuildDiscHostError {
    /// The error's message.
    pub fn message(&self) -> (s: String)
        ensures
            s@ == disc_host_message(*self),
            error_style(s@),
    {
        proof {
            reveal_strlit("a disc host's [Fe/H] must be finite");
            reveal_strlit("a disc host's luminosity must be positive and finite");
            reveal_strlit("a disc host's mass must be positive and finite");
            reveal_strlit("a disc host's radius must be positive and finite");
        }
        match self {
            BuildDiscHostError::MassNotPositive => literal("a disc host's mass must be positive and finite"),
            BuildDiscHostError::MetallicityNotFinite => literal("a disc host's [Fe/H] must be finite"),
            BuildDiscHostError::LuminosityNotPositive => literal("a disc host's luminosity must be positive and finite"),
            BuildDiscHostError::RadiusNotPositive => literal("a disc host's radius must be positive and finite"),
        }
    }
}

/// The radii a disc is cut to: a stable zone's limits or the strip radius, in the caller's type
/// of distance `L`.
#[derive(Debug, Clone, Copy, PartialEq)]
pub struct Truncation<L> {
    inner: Option<L>,
    outer: Option<L>,
}

impl<L> View for Truncation<L> {
    type V = (Option<L>, Option<L>);

    /// The inner and the outer radius, where there are.
    closed spec fn view(&self) -> (Option<L>, Option<L>) {
        (self.inner, self.outer)
    }
}

impl<L: Copy> Truncation<L> {
    /// No truncation: the disc keeps its own edges.
    pub fn none() -> (t: Self)
        ensures
            t@ == (None::<L>, None::<L>),
    {
        Truncation { inner: None, outer: None }
    }

    /// This truncation with nothing of the disc kept inside `inner`.
    pub fn with_inner(self, inner: L) -> (t: Self)
        ensures
            t@ == (Some(inner), self@.1),
    {
        Truncation { inner: Some(inner), ..self }
    }

    /// This truncation with nothing of the disc kept outside `outer`.
    pub fn with_outer(self, outer: L) -> (t: Self)
        ensures
            t@ == (self@.0, Some(outer)),
    {
        Truncation { outer: Some(outer), ..self }
    }

    /// The inner truncation radius, if any.
    pub fn inner(&self) -> (r: Option<L>)
        ensures
            r == self@.0,
    {
        self.inner
    }

    /// The outer truncation radius, if any.
    pub fn outer(&self) -> (r: Option<L>)
        ensures
            r == self@.1,
    {
        self.outer
    }
}

/// The random variates of one orbit host's disc: three standard normals in the caller's type `N`
/// and a rank in (0, 1) in `R`.
#[derive(Debug, Clone, Copy, PartialEq)]
pub struct DiscDraws<N, R> {
    /// The gas-to-host mass ratio's standard normal.
    pub gas_fraction: N,
    /// The host's rotation period's standard normal.
    pub corotation_period: N,
    /// The characteristic radius's standard normal.
    pub characteristic_radius: N,
    /// A circumbinary disc's lifetime rank. A circumstellar disc reads its star's disc lifetime
    /// rank instead, and leaves this unused.
    pub circumbinary_lifetime_rank: R,
}

/// A disc host is built exactly when its mass, zero-age luminosity and zero-age radius are
/// finite and above zero and its [Fe/H] is finite, below, at or above zero alike; otherwise it is
/// refused for the first of those, in that order, that fails: [Fe/H] only where it is not a
/// number or infinite.
pub proof fn lemma_disc_host_refusals(m: Sign, z: Sign, l: Sign, r: Sign)
    ensures
        disc_host_check(m, z, l, r) is None <==> (m is Positive && (z is Negative || z is Zero
            || z is Positive) && l is Positive && r is Positive),
        disc_host_check(m, z, l, r) == Some(BuildDiscHostError::MassNotPositive) <==> !(
        m is Positive),
        disc_host_check(m, z, l, r) == Some(BuildDiscHostError::MetallicityNotFinite) <==> (
        m is Positive && (z is NotANumber || z is NegativeInfinity || z is PositiveInfinity)),
        disc_host_check(m, z, l, r) == Some(BuildDiscHostError::LuminosityNotPositive) <==> (
        m is Positive && (z is Negative || z is Zero || z is Positive) && !(l is Positive)),
        disc_host_check(m, z, l, r) == Some(BuildDiscHostError::RadiusNotPositive) <==> (
        m is Positive && (z is Negative || z is Zero || z is Positive) && l is Positive && !(
        r is Positive)),
{
}

} // verus!
