//! A host's light as the derivation reads it.

use vstd::prelude::*;

use crate::quantity::{Quantity, Sign};
use crate::text::{error_style, literal};

verus! {

/// A host's light as the derivation reads it: its luminosity, effective temperature and radius
/// at one time, in the caller's type `Q`.
#[derive(Debug, Clone, Copy, PartialEq)]
pub struct HostLight<Q> {
    luminosity: Q,
    effective_temperature: Q,
    radius: Q,
}

impl<Q> View for HostLight<Q> {
    type V = (Q, Q, Q);

    /// The luminosity, the effective temperature and the radius.
    closed spec fn view(&self) -> (Q, Q, Q) {
        (self.luminosity, self.effective_temperature, self.radius)
    }
}

/// A host light could not be built.
#[derive(Debug, Clone, Copy, PartialEq, Eq, Hash, Structural)]
pub enum BuildHostLightError {
    /// The luminosity was negative or not finite.
    LuminosityNotValid,
    /// The effective temperature was negative or not finite.
    TemperatureNotValid,
    /// The radius was negative or not finite.
    RadiusNotValid,
    /// The host shines but has no radius or no temperature.
    LuminousWithoutSurface,
}

/// The first thing wrong with a host of luminosity, temperature and radius of classes `l`, `t`
/// and `r`: each must be finite and not negative, and a host that shines must have a temperature
/// and a radius above zero.
pub open spec fn host_light_check(l: Sign, t: Sign, r: Sign) -> Option<BuildHostLightError> {
    if !l.finite_and_not_negative() {
        Some(BuildHostLightError::LuminosityNotValid)
    } else if !t.finite_and_not_negative() {
        Some(BuildHostLightError::TemperatureNotValid)
    } else if !r.finite_and_not_negative() {
        Some(BuildHostLightError::RadiusNotValid)
    } else if l.above_zero() && (!t.above_zero() || !r.above_zero()) {
        Some(BuildHostLightError::LuminousWithoutSurface)
    } else {
        None
    }
}

impl<Q: Copy> HostLight<Q> {
    /// A host of luminosity `luminosity`, effective temperature `effective_temperature` and
    /// radius `radius`. A dark host (a black hole, or no remnant) has zero luminosity, and then
    /// any temperature and radius.
    ///
    /// # Errors
    ///
    /// The [`BuildHostLightError`] naming the first value that is negative or not finite, or
    /// [`BuildHostLightError::LuminousWithoutSurface`] for a luminous host with no radius or no
    /// temperature.
    pub fn new(
        luminosity: Quantity<Q>,
        effective_temperature: Quantity<Q>,
        radius: Quantity<Q>,
    ) -> (r: Result<Self, BuildHostLightError>)
        ensures
            match host_light_check(luminosity.sign, effective_temperature.sign, radius.sign) {
                Some(e) => r == Err::<Self, BuildHostLightError>(e),
                None => r matches Ok(h) && h@ == (
                    luminosity.value,
                    effective_temperature.value,
                    radius.value,
                ),
            },
    {
        if !luminosity.sign.is_finite_and_not_negative() {
            return Err(BuildHostLightError::LuminosityNotValid);
        }
        if !effective_temperature.sign.is_finite_and_not_negative() {
            return Err(BuildHostLightError::TemperatureNotValid);
        }
        if !radius.sign.is_finite_and_not_negative() {
            return Err(BuildHostLightError::RadiusNotValid);
        }
        if luminosity.sign.is_above_zero() && (!effective_temperature.sign.is_above_zero()
            || !radius.sign.is_above_zero()) {
            return Err(BuildHostLightError::LuminousWithoutSurface);
        }
        Ok(HostLight {
            luminosity: luminosity.value,
            effective_temperature: effective_temperature.value,
            radius: radius.value,
        })
    }

    /// The host's bolometric luminosity.
    pub fn luminosity(&self) -> (l: Q)
        ensures
            l == self@.0,
    {
        self.luminosity
    }

    /// The host's effective temperature.
    pub fn effective_temperature(&self) -> (t: Q)
        ensures
            t == self@.1,
    {
        self.effective_temperature
    }

    /// The host's radius.
    pub fn radius(&self) -> (r: Q)
        ensures
            r == self@.2,
    {
        self.radius
    }
}

/// The message of a host light error.
pub open spec fn host_light_message(e: BuildHostLightError) -> Seq<char> {
    match e {
        BuildHostLightError::LuminosityNotValid => "a host's luminosity must be finite and not negative"@,
        BuildHostLightError::TemperatureNotValid => "a host's temperature must be finite and not negative"@,
        BuildHostLightError::RadiusNotValid => "a host's radius must be finite and not negative"@,
        BuildHostLightError::LuminousWithoutSurface => "a luminous host must have a radius and a temperature"@,
    }
}

impl BuildHostLightError {
    /// The error's message.
    pub fn message(&self) -> (s: String)
        ensures
            s@ == host_light_message(*self),
            error_style(s@),
    {
        proof {
            reveal_strlit("a host's luminosity must be finite and not negative");
            reveal_strlit("a host's radius must be finite and not negative");
            reveal_strlit("a host's temperature must be finite and not negative");
            reveal_strlit("a luminous host must have a radius and a temperature");
        }
        match self {
            BuildHostLightError::LuminosityNotValid => literal("a host's luminosity must be finite and not negative"),
            BuildHostLightError::TemperatureNotValid => literal("a host's temperature must be finite and not negative"),
            BuildHostLightError::RadiusNotValid => literal("a host's radius must be finite and not negative"),
            BuildHostLightError::LuminousWithoutSurface => literal("a luminous host must have a radius and a temperature"),
        }
    }
}

/// The light of a host along an orbit: the host, and the orbit's semi-major axis and
/// eccentricity, in the caller's type `Q`.
#[derive(Debug, Clone, Copy, PartialEq)]
pub struct Illumination<Q> {
    host: HostLight<Q>,
    semi_major_axis: Q,
    eccentricity: Q,
}

impl<Q> View for Illumination<Q> {
    type V = (HostLight<Q>, Q, Q);

    /// The host, the semi-major axis and the eccentricity.
    closed spec fn view(&self) -> (HostLight<Q>, Q, Q) {
        (self.host, self.semi_major_axis, self.eccentricity)
    }
}

/// Whether an orbit whose semi-major axis, eccentricity and one less its eccentricity are of
/// classes `a`, `e` and `room` is one a host lights: the axis positive and finite, and
/// 0 ≤ e < 1.
pub open spec fn lit_orbit(a: Sign, e: Sign, room: Sign) -> bool {
    a.positive_and_finite() && e.finite_and_not_negative() && room.positive_and_finite()
}

impl<Q: Copy> Illumination<Q> {
    /// The light of `host` along an orbit of semi-major axis `semi_major_axis` and eccentricity
    /// `eccentricity`, given with the class of one less it, `room`; `None` unless the axis is
    /// positive and finite and 0 ≤ e < 1.
    pub fn new(
        host: HostLight<Q>,
        semi_major_axis: Quantity<Q>,
        eccentricity: Quantity<Q>,
        room: Sign,
    ) -> (r: Option<Self>)
        ensures
            r is Some <==> lit_orbit(semi_major_axis.sign, eccentricity.sign, room),
            r matches Some(i) ==> i@ == (host, semi_major_axis.value, eccentricity.value),
    {
        if semi_major_axis.sign.is_positive_and_finite()
            && eccentricity.sign.is_finite_and_not_negative() && room.is_positive_and_finite() {
            Some(Illumination {
                host,
                semi_major_axis: semi_major_axis.value,
                eccentricity: eccentricity.value,
            })
        } else {
            None
        }
    }

    /// The host.
    pub fn host(&self) -> (h: &HostLight<Q>)
        ensures
            *h == self@.0,
    {
        &self.host
    }

    /// The orbit's semi-major axis.
    pub fn semi_major_axis(&self) -> (a: Q)
        ensures
            a == self@.1,
    {
        self.semi_major_axis
    }

    /// The orbit's eccentricity.
    pub fn eccentricity(&self) -> (e: Q)
        ensures
            e == self@.2,
    {
        self.eccentricity
    }
}

/// A host light is built exactly when its luminosity, temperature and radius are finite and not
/// negative and, where it shines, its temperature and radius are above zero; a dark host takes
/// any finite temperature and radius. The first value that is negative or not finite is named,
/// in the order luminosity, temperature, radius.
pub proof fn lemma_host_light_refusals(l: Sign, t: Sign, r: Sign)
    ensures
        host_light_check(l, t, r) is None <==> ((l is Zero && (t is Zero || t is Positive) && (
        r is Zero || r is Positive)) || (l is Positive && t is Positive && r is Positive)),
        host_light_check(l, t, r) == Some(BuildHostLightError::LuminosityNotValid) <==> !(l is Zero
            || l is Positive),
        host_light_check(l, t, r) == Some(BuildHostLightError::TemperatureNotValid) <==> ((l is Zero
            || l is Positive) && !(t is Zero || t is Positive)),
        host_light_check(l, t, r) == Some(BuildHostLightError::RadiusNotValid) <==> ((l is Zero
            || l is Positive) && (t is Zero || t is Positive) && !(r is Zero || r is Positive)),
        host_light_check(l, t, r) == Some(BuildHostLightError::LuminousWithoutSurface) <==> (
        l is Positive && (t is Zero || t is Positive) && (r is Zero || r is Positive) && (t is Zero
            || r is Zero)),
{
}

/// A host lights an orbit exactly when its semi-major axis is finite and above zero and its
/// eccentricity lies in 0 to 1, zero included and one not: the eccentricity finite and not
/// negative, and one less it finite and above zero.
pub proof fn lemma_lit_orbits(a: Sign, e: Sign, room: Sign)
    ensures
        lit_orbit(a, e, room) <==> (a is Positive && (e is Zero || e is Positive)
            && room is Positive),
{
}

} // verus!
