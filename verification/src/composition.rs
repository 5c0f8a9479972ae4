//! The bulk composition solve's kinds: which side of the snow line a body formed on, how the
//! solve changed the radius it was given, and what it could not solve.

use vstd::prelude::*;

use crate::quantity::{Quantity, Sign};
use crate::text::{error_style, frame, framed, lemma_framed_in_error_style, literal};

verus! {

/// Which side of its host's snow line a body formed on.
#[derive(Debug, Clone, Copy, PartialEq, Eq, Hash, PartialOrd, Ord, Structural)]
pub enum SnowLineSide {
    /// Inside the snow line, where only rock and iron condense.
    Inside,
    /// Beyond the snow line, where water ice condenses too.
    Beyond,
}

/// How the solve changed the radius it was given, if it did.
#[derive(Debug, Clone, Copy, PartialEq, Eq, Hash, PartialOrd, Ord, Structural)]
pub enum RadiusAdjustment {
    /// The radius is the one given.
    Unchanged,
    /// The radius lay below the iron curve and was raised to it.
    RaisedToIron,
    /// A body formed inside the snow line and too light for an envelope lay above the rock curve,
    /// and was clamped to rock with the inner water cap.
    ClampedToRock,
    /// A body formed beyond the snow line and too light for an envelope lay above the curve of
    /// the outer water cap, and was clamped to it.
    ClampedToIce,
    /// The radius lay above that of the largest envelope the body's mass allows, and was lowered
    /// to it.
    ClampedToEnvelopeLimit,
}

/// The composition solve could not solve, for a body whose mass is measured in `M`.
#[derive(Debug, Clone, Copy, PartialEq)]
pub enum SolveCompositionError<M> {
    /// The mass was not positive and finite.
    MassNotPositive,
    /// The radius was not positive and finite.
    RadiusNotPositive,
    /// The flux was negative or not finite.
    FluxNotValid,
    /// The body is a giant, of 0.414 Jupiter masses or more, whose radius and composition are
    /// the giant planets' own.
    GiantPlanet {
        /// The body's mass.
        mass: M,
    },
}

impl<M: Copy> SolveCompositionError<M> {
    /// The error's message, with a giant's mass written by `show`: such as `a body of 400 earth
    /// masses is a giant, whose composition is not solved here`.
    pub fn message<F: Fn(M) -> String>(&self, show: F) -> (s: String)
        requires
            forall|m: M| show.requires((m,)),
        ensures
            error_style(s@),
            match *self {
                SolveCompositionError::MassNotPositive => s@
                    == "a body's mass must be positive and finite"@,
                SolveCompositionError::RadiusNotPositive => s@
                    == "a body's radius must be positive and finite"@,
                SolveCompositionError::FluxNotValid => s@
                    == "a body's flux must be finite and not negative"@,
                SolveCompositionError::GiantPlanet { mass } => framed(
                    s@,
                    "a body of "@,
                    show,
                    mass,
                    " earth masses is a giant, whose composition is not solved here"@,
                ),
            },
    {
        let s = match *self {
            SolveCompositionError::MassNotPositive => literal(
                "a body's mass must be positive and finite",
            ),
            SolveCompositionError::RadiusNotPositive => literal(
                "a body's radius must be positive and finite",
            ),
            SolveCompositionError::FluxNotValid => literal(
                "a body's flux must be finite and not negative",
            ),
            SolveCompositionError::GiantPlanet { mass } => frame(
                "a body of ",
                &show,
                mass,
                " earth masses is a giant, whose composition is not solved here",
            ),
        };
        proof {
            reveal_strlit("a body's mass must be positive and finite");
            reveal_strlit("a body's radius must be positive and finite");
            reveal_strlit("a body's flux must be finite and not negative");
            reveal_strlit("a body of ");
            reveal_strlit(" earth masses is a giant, whose composition is not solved here");
            if let SolveCompositionError::GiantPlanet { mass } = *self {
                lemma_framed_in_error_style(
                    s@,
                    "a body of "@,
                    show,
                    mass,
                    " earth masses is a giant, whose composition is not solved here"@,
                );
            }
        }
        s
    }
}

/// The first of the composition solve's checks of its inputs that fails, in the order it makes
/// them: a body of `mass`, radius of class `radius` and flux of class `flux`, a giant where
/// `giant` says its mass reaches the giants' (0.414 Jupiter masses); `None` where all pass.
pub open spec fn composition_refusal<M>(
    mass: Quantity<M>,
    radius: Sign,
    flux: Sign,
    giant: bool,
) -> Option<SolveCompositionError<M>> {
    if !mass.sign.positive_and_finite() {
        Some(SolveCompositionError::MassNotPositive)
    } else if !radius.positive_and_finite() {
        Some(SolveCompositionError::RadiusNotPositive)
    } else if !flux.finite_and_not_negative() {
        Some(SolveCompositionError::FluxNotValid)
    } else if giant {
        Some(SolveCompositionError::GiantPlanet { mass: mass.value })
    } else {
        None
    }
}

/// Checks the inputs of the composition solve, in its order: the mass must be positive and
/// finite, the radius positive and finite, the flux finite and not negative, and the body no
/// giant.
///
/// # Errors
///
/// The first check that fails, as [`composition_refusal`] says.
pub fn check_composition_inputs<M: Copy>(
    mass: Quantity<M>,
    radius: Sign,
    flux: Sign,
    giant: bool,
) -> (r: Result<(), SolveCompositionError<M>>)
    ensures
        match composition_refusal(mass, radius, flux, giant) {
            Some(e) => r == Err::<(), SolveCompositionError<M>>(e),
            None => r is Ok,
        },
{
    if !mass.sign.is_positive_and_finite() {
        return Err(SolveCompositionError::MassNotPositive);
    }
    if !radius.is_positive_and_finite() {
        return Err(SolveCompositionError::RadiusNotPositive);
    }
    if !flux.is_finite_and_not_negative() {
        return Err(SolveCompositionError::FluxNotValid);
    }
    if giant {
        return Err(SolveCompositionError::GiantPlanet { mass: mass.value });
    }
    Ok(())
}

/// The first of the radius window's checks of its inputs that fails, in the order it makes
/// them: as [`composition_refusal`], without a radius.
pub open spec fn radius_window_refusal<M>(
    mass: Quantity<M>,
    flux: Sign,
    giant: bool,
) -> Option<SolveCompositionError<M>> {
    if !mass.sign.positive_and_finite() {
        Some(SolveCompositionError::MassNotPositive)
    } else if !flux.finite_and_not_negative() {
        Some(SolveCompositionError::FluxNotValid)
    } else if giant {
        Some(SolveCompositionError::GiantPlanet { mass: mass.value })
    } else {
        None
    }
}

/// Checks the inputs of the radius window of a body's mass, in its order: the mass must be
/// positive and finite, the flux finite and not negative, and the body no giant.
///
/// # Errors
///
/// The first check that fails, as [`radius_window_refusal`] says.
pub fn check_radius_window_inputs<M: Copy>(mass: Quantity<M>, flux: Sign, giant: bool) -> (r:
    Result<(), SolveCompositionError<M>>)
    ensures
        match radius_window_refusal(mass, flux, giant) {
            Some(e) => r == Err::<(), SolveCompositionError<M>>(e),
            None => r is Ok,
        },
{
    if !mass.sign.is_positive_and_finite() {
        return Err(SolveCompositionError::MassNotPositive);
    }
    if !flux.is_finite_and_not_negative() {
        return Err(SolveCompositionError::FluxNotValid);
    }
    if giant {
        return Err(SolveCompositionError::GiantPlanet { mass: mass.value });
    }
    Ok(())
}

/// The composition solve takes exactly the non-giants whose mass and radius are finite and
/// above zero and whose flux is finite and not negative, zero flux and any positive flux alike;
/// otherwise it refuses the first of mass, radius, flux and giant, in that order, that fails,
/// and the flux only where it is negative, infinite or not a number.
pub proof fn lemma_composition_refusals<M>(mass: Quantity<M>, radius: Sign, flux: Sign, giant: bool)
    ensures
        composition_refusal(mass, radius, flux, giant) is None <==> (mass.sign is Positive
            && radius is Positive && (flux is Zero || flux is Positive) && !giant),
        composition_refusal(mass, radius, flux, giant) == Some(
            SolveCompositionError::<M>::MassNotPositive,
        ) <==> !(mass.sign is Positive),
        composition_refusal(mass, radius, flux, giant) == Some(
            SolveCompositionError::<M>::RadiusNotPositive,
        ) <==> (mass.sign is Positive && !(radius is Positive)),
        composition_refusal(mass, radius, flux, giant) == Some(
            SolveCompositionError::<M>::FluxNotValid,
        ) <==> (mass.sign is Positive && radius is Positive && (flux is Negative
            || flux is NotANumber || flux is NegativeInfinity || flux is PositiveInfinity)),
        composition_refusal(mass, radius, flux, giant) == Some(
            SolveCompositionError::GiantPlanet { mass: mass.value },
        ) <==> (mass.sign is Positive && radius is Positive && (flux is Zero || flux is Positive)
            && giant),
{
}

/// The radius window takes exactly the non-giants whose mass is finite and above zero and whose
/// flux is finite and not negative; otherwise it refuses the first of mass, flux and giant, in
/// that order, that fails.
pub proof fn lemma_radius_window_refusals<M>(mass: Quantity<M>, flux: Sign, giant: bool)
    ensures
        radius_window_refusal(mass, flux, giant) is None <==> (mass.sign is Positive && (
        flux is Zero || flux is Positive) && !giant),
        radius_window_refusal(mass, flux, giant) == Some(
            SolveCompositionError::<M>::MassNotPositive,
        ) <==> !(mass.sign is Positive),
        radius_window_refusal(mass, flux, giant) == Some(SolveCompositionError::<M>::FluxNotValid)
            <==> (mass.sign is Positive && (flux is Negative || flux is NotANumber
            || flux is NegativeInfinity || flux is PositiveInfinity)),
        radius_window_refusal(mass, flux, giant) == Some(
            SolveCompositionError::GiantPlanet { mass: mass.value },
        ) <==> (mass.sign is Positive && (flux is Zero || flux is Positive) && giant),
{
}

} // verus!
