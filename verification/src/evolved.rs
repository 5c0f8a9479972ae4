//! How a body's eccentricity decays under the tides its host raises on it.

use vstd::prelude::*;

use crate::quantity::Quantity;
use crate::text::{error_style, frame, framed, lemma_framed_in_error_style};

verus! {

/// A circularisation could not be built from the timescale given, in the caller's type `Y`.
#[derive(Debug, Clone, Copy, PartialEq)]
pub enum BuildCircularisationError<Y> {
    /// The timescale was not positive, or was NaN.
    TimescaleNotPositive(Y),
}

impl<Y: Copy> BuildCircularisationError<Y> {
    /// The error's message, with the timescale written by `show`: such as `circularisation
    /// timescale 0 yr is not positive`.
    pub fn message<F: Fn(Y) -> String>(&self, show: F) -> (s: String)
        requires
            forall|y: Y| show.requires((y,)),
        ensures
            error_style(s@),
            match *self {
                BuildCircularisationError::TimescaleNotPositive(t) => framed(
                    s@,
                    "circularisation timescale "@,
                    show,
                    t,
                    " yr is not positive"@,
                ),
            },
    {
        let s = match *self {
            BuildCircularisationError::TimescaleNotPositive(t) => frame(
                "circularisation timescale ",
                &show,
                t,
                " yr is not positive",
            ),
        };
        proof {
            reveal_strlit(" yr is not positive");
            reveal_strlit("circularisation timescale ");
            match *self {
                BuildCircularisationError::TimescaleNotPositive(t) => lemma_framed_in_error_style(
                    s@,
                    "circularisation timescale "@,
                    show,
                    t,
                    " yr is not positive"@,
                ),
            }
        }
        s
    }
}

/// How a body's eccentricity decays under the tides its host raises on it: not at all, or with
/// an e-folding time, in the caller's type `Y`.
#[derive(Debug, Clone, Copy, PartialEq)]
pub struct Circularisation<Y>(Option<Y>);

impl<Y> View for Circularisation<Y> {
    type V = Option<Y>;

    /// The e-folding time, if there is one.
    closed spec fn view(&self) -> Option<Y> {
        self.0
    }
}

impl<Y: Copy> Circularisation<Y> {
    /// No circularisation: the eccentricity keeps its primordial value.
    pub fn none() -> (c: Self)
        ensures
            c@ == None::<Y>,
    {
        Circularisation(None)
    }

    /// Circularisation with e-folding time `timescale`, which may be infinite (none, in effect).
    ///
    /// # Errors
    ///
    /// [`BuildCircularisationError::TimescaleNotPositive`] unless `timescale` is above zero.
    pub fn new(timescale: Quantity<Y>) -> (r: Result<Self, BuildCircularisationError<Y>>)
        ensures
            timescale.sign.above_zero() ==> (r matches Ok(c) && c@ == Some(timescale.value)),
            !timescale.sign.above_zero() ==> r == Err::<Self, BuildCircularisationError<Y>>(
                BuildCircularisationError::TimescaleNotPositive(timescale.value),
            ),
    {
        if timescale.sign.is_above_zero() {
            Ok(Circularisation(Some(timescale.value)))
        } else {
            Err(BuildCircularisationError::TimescaleNotPositive(timescale.value))
        }
    }

    /// The e-folding time of the eccentricity, if there is one.
    pub fn timescale(&self) -> (t: Option<Y>)
        ensures
            t == self@,
    {
        self.0
    }
}

} // verus!
