//! Young hosts: how and when each planet forms.
//!
//! Giants accrete their gas while the disc lasts, so a giant forms before its disc's lifetime;
//! small planets finish as the gas goes, at the lifetime itself. The ages are the model's
//! (floating point), held in the caller's type.

use vstd::prelude::*;

use crate::quantity::Quantity;
use crate::text::{error_style, frame, framed, lemma_framed_in_error_style};

verus! {

/// How a planet forms: with its disc's gas, or as the gas goes.
#[derive(Debug, Clone, Copy, PartialEq, Eq, Hash, PartialOrd, Ord, Structural)]
pub enum FormationKind {
    /// A giant, which accretes its envelope from the gas disc and so forms before the disc has
    /// gone: from 0.1 Jupiter masses.
    Giant,
    /// Any lighter planet, which finishes forming as the gas disc disperses.
    Small,
}

/// The random variates of one planet's formation: ranks in (0, 1), in the caller's type `R`.
#[derive(Debug, Clone, Copy, PartialEq)]
pub struct FormationDraws<R> {
    /// The rank of a giant's formation age between the earliest a giant forms and its disc's
    /// lifetime, in the logarithm.
    pub giant: R,
    /// The rank of the host age at which a terrestrial planet's magma ocean ends, between 10 and
    /// 100 Myr, in the logarithm.
    pub magma_ocean: R,
}

/// A formation could not be built from the values given, in the caller's type `Q`.
#[derive(Debug, Clone, Copy, PartialEq)]
pub enum BuildFormationError<Q> {
    /// The planet's mass was not finite and positive.
    MassNotPositive(Q),
    /// The disc's lifetime was not finite and positive.
    LifetimeNotPositive(Q),
}

impl<Q: Copy> BuildFormationError<Q> {
    /// The error's message, with the value written by `show`: such as `disc lifetime NaN Myr is
    /// not finite and positive`.
    pub fn message<F: Fn(Q) -> String>(&self, show: F) -> (s: String)
        requires
            forall|q: Q| show.requires((q,)),
        ensures
            error_style(s@),
            match *self {
                BuildFormationError::MassNotPositive(m) => framed(
                    s@,
                    "planet mass "@,
                    show,
                    m,
                    " M_earth is not finite and positive"@,
                ),
                BuildFormationError::LifetimeNotPositive(l) => framed(
                    s@,
                    "disc lifetime "@,
                    show,
                    l,
                    " Myr is not finite and positive"@,
                ),
            },
    {
        let s = match *self {
            BuildFormationError::MassNotPositive(m) => frame(
                "planet mass ",
                &show,
                m,
                " M_earth is not finite and positive",
            ),
            BuildFormationError::LifetimeNotPositive(l) => frame(
                "disc lifetime ",
                &show,
                l,
                " Myr is not finite and positive",
            ),
        };
        proof {
            reveal_strlit(" M_earth is not finite and positive");
            reveal_strlit(" Myr is not finite and positive");
            reveal_strlit("disc lifetime ");
            reveal_strlit("planet mass ");
            match *self {
                BuildFormationError::MassNotPositive(m) => lemma_framed_in_error_style(
                    s@,
                    "planet mass "@,
                    show,
                    m,
                    " M_earth is not finite and positive"@,
                ),
                BuildFormationError::LifetimeNotPositive(l) => lemma_framed_in_error_style(
                    s@,
                    "disc lifetime "@,
                    show,
                    l,
                    " Myr is not finite and positive"@,
                ),
            }
        }
        s
    }
}

/// When a planet forms, and when a terrestrial planet's magma ocean ends: both host ages, in the
/// caller's type `Q`.
#[derive(Debug, Clone, Copy, PartialEq)]
pub struct Formation<Q> {
    kind: FormationKind,
    formed_at: Q,
    molten_until: Q,
}

impl<Q> View for Formation<Q> {
    type V = (FormationKind, Q, Q);

    /// The kind, the formation age and the age the magma ocean ends.
    closed spec fn view(&self) -> (FormationKind, Q, Q) {
        (self.kind, self.formed_at, self.molten_until)
    }
}

impl<Q: Copy> Formation<Q> {
    /// What a formation of a planet of `mass` whose disc lives `disc_lifetime` first asks of
    /// them: both finite and positive, the mass first.
    ///
    /// # Errors
    ///
    /// [`BuildFormationError::MassNotPositive`] and [`BuildFormationError::LifetimeNotPositive`]
    /// unless the mass and the lifetime are finite and positive.
    pub fn check(mass: Quantity<Q>, disc_lifetime: Quantity<Q>) -> (r: Result<
        (),
        BuildFormationError<Q>,
    >)
        ensures
            !mass.sign.positive_and_finite() ==> r == Err::<(), BuildFormationError<Q>>(
                BuildFormationError::MassNotPositive(mass.value),
            ),
            mass.sign.positive_and_finite() && !disc_lifetime.sign.positive_and_finite() ==> r
                == Err::<(), BuildFormationError<Q>>(
                BuildFormationError::LifetimeNotPositive(disc_lifetime.value),
            ),
            mass.sign.positive_and_finite() && disc_lifetime.sign.positive_and_finite() ==> r
                is Ok,
    {
        if !mass.sign.is_positive_and_finite() {
            return Err(BuildFormationError::MassNotPositive(mass.value));
        }
        if !disc_lifetime.sign.is_positive_and_finite() {
            return Err(BuildFormationError::LifetimeNotPositive(disc_lifetime.value));
        }
        Ok(())
    }

    /// The formation of a planet of `mass` whose disc lives `disc_lifetime`, from the ranks
    /// `draws`: the kind and the two ages that `ages` gives of the mass, the lifetime and the
    /// ranks (the formation model, in floating point), once both are found finite and positive.
    ///
    /// # Errors
    ///
    /// As [`Formation::check`], before `ages` is asked.
    pub fn from_draws<R, F>(
        mass: Quantity<Q>,
        disc_lifetime: Quantity<Q>,
        draws: &FormationDraws<R>,
        ages: F,
    ) -> (r: Result<Self, BuildFormationError<Q>>)
        where
            F: Fn(Q, Q, &FormationDraws<R>) -> (FormationKind, Q, Q),
        requires
            forall|m: Q, l: Q, d: &FormationDraws<R>| ages.requires((m, l, d)),
        ensures
            !mass.sign.positive_and_finite() ==> r == Err::<Self, BuildFormationError<Q>>(
                BuildFormationError::MassNotPositive(mass.value),
            ),
            mass.sign.positive_and_finite() && !disc_lifetime.sign.positive_and_finite() ==> r
                == Err::<Self, BuildFormationError<Q>>(
                BuildFormationError::LifetimeNotPositive(disc_lifetime.value),
            ),
            mass.sign.positive_and_finite() && disc_lifetime.sign.positive_and_finite() ==> (r matches Ok(
                f,
            ) && ages.ensures((mass.value, disc_lifetime.value, draws), f@)),
    {
        match Self::check(mass, disc_lifetime) {
            Err(e) => Err(e),
            Ok(()) => {
                let (kind, formed_at, molten_until) = ages(mass.value, disc_lifetime.value, draws);
                Ok(Formation { kind, formed_at, molten_until })
            },
        }
    }

    /// How the planet forms.
    pub fn kind(&self) -> (k: FormationKind)
        ensures
            k == self@.0,
    {
        self.kind
    }

    /// The host age at which the planet forms.
    pub fn formed_at(&self) -> (t: Q)
        ensures
            t == self@.1,
    {
        self.formed_at
    }

    /// The host age until which a terrestrial planet's surface is a magma ocean.
    pub fn molten_until(&self) -> (t: Q)
        ensures
            t == self@.2,
    {
        self.molten_until
    }
}

} // verus!
