//! What has become of a body at a time: its state sequence, and the time decisions of its
//! history.
//!
//! A body is [`BodyState::NotYetFormed`] before its formation, then [`BodyState::Present`] on an
//! orbit that changes between its host's sudden deaths, until it is destroyed or unbound. The
//! state sequence of every body is a prefix of not yet formed → present → destroyed or unbound.
//!
//! A [`BodyFate`] holds a body's history once resolved: when it forms, the segments of its life
//! between its host's sudden deaths (each with the elements it starts from, of whatever type the
//! caller keeps them in), and how and when it ends. [`BodyFate::resolve`] fixes it from the
//! body's formation time and its host stars' deaths, asking the orbital models (floating point,
//! the caller's) when in each stretch the body is engulfed and what each sudden death leaves of
//! it. [`BodyFate::at`] then reads it at any time, so every query of one body agrees with every
//! other, whatever their order; [`state_at`] is both in one call.

use vstd::prelude::*;

use crate::evolved::Circularisation;
use crate::quantity::{Keyed, Quantity};
use crate::text::{
    error_style, frame, frame_two, framed, framed_two, lemma_framed_in_error_style,
    lemma_framed_two_in_error_style, literal,
};
use crate::time::{ClockWindow, UniverseTime};
use crate::young::Formation;

verus! {

/// What destroyed a body.
///
/// A moon destroyed with its planet takes its planet's cause.
#[derive(Debug, Clone, Copy, PartialEq, Eq, Hash, PartialOrd, Ord, Structural)]
pub enum DestructionCause {
    /// A protoplanetary disc dispersed at the end of its lifetime.
    Dispersed,
    /// The host expanded over the body's orbit: a planet is engulfed once its semi-major axis is
    /// inside 1.0–1.8 host radii, from rocky to Jovian.
    Engulfed,
    /// The body's pericentre fell inside its primary's Roche limit, as after a supernova that
    /// leaves a planet on a plunging orbit about the remnant.
    TidallyDisrupted,
    /// The body collided with a heavier neighbour after a supernova left their orbits crossing,
    /// and merged into it.
    Collided,
}

/// A body's state at a time: a prefix of not yet formed → present → destroyed or unbound.
#[derive(Debug, Clone, Copy, PartialEq, Eq, Hash, PartialOrd, Ord, Structural)]
pub enum BodyState {
    /// The body has not formed yet: a giant before its formation age, a small planet before its
    /// disc's lifetime, or any body of a system not yet born.
    NotYetFormed,
    /// The body exists and orbits as its elements say.
    Present,
    /// The body was destroyed at `at`.
    Destroyed {
        /// What destroyed it.
        cause: DestructionCause,
        /// When.
        at: UniverseTime,
    },
    /// The body was unbound from its system at `at`, and is no longer tracked.
    Unbound {
        /// When.
        at: UniverseTime,
    },
}

/// The place of a state in the sequence not yet formed → present → gone.
pub open spec fn state_rank(state: BodyState) -> int {
    match state {
        BodyState::NotYetFormed => 0,
        BodyState::Present => 1,
        BodyState::Destroyed { .. } | BodyState::Unbound { .. } => 2,
    }
}

/// When a destroyed or unbound body stopped being present.
pub open spec fn end_time(state: BodyState) -> Option<UniverseTime> {
    match state {
        BodyState::Destroyed { at, .. } => Some(at),
        BodyState::Unbound { at } => Some(at),
        _ => None,
    }
}

impl BodyState {
    /// When the body stopped being present, for a destroyed or unbound body.
    pub fn ended_at(&self) -> (at: Option<UniverseTime>)
        ensures
            at == end_time(*self),
    {
        match *self {
            BodyState::Destroyed { at, .. } => Some(at),
            BodyState::Unbound { at } => Some(at),
            BodyState::NotYetFormed | BodyState::Present => None,
        }
    }
}

/// A [`FateBody`] could not be built from the values given, in the caller's type `Q`.
#[derive(Debug, Clone, Copy, PartialEq)]
pub enum BuildFateBodyError<Q> {
    /// The body's mass was not finite and positive.
    MassNotPositive(Q),
    /// The body's bulk density was not finite and positive.
    DensityNotPositive(Q),
}

impl<Q: Copy> BuildFateBodyError<Q> {
    /// The error's message, with the value written by `show`: such as `body mass 0 M_earth is
    /// not finite and positive`.
    pub fn message<F: Fn(Q) -> String>(&self, show: F) -> (s: String)
        requires
            forall|q: Q| show.requires((q,)),
        ensures
            error_style(s@),
            match *self {
                BuildFateBodyError::MassNotPositive(m) => framed(
                    s@,
                    "body mass "@,
                    show,
                    m,
                    " M_earth is not finite and positive"@,
                ),
                BuildFateBodyError::DensityNotPositive(d) => framed(
                    s@,
                    "body density "@,
                    show,
                    d,
                    " kg/m^3 is not finite and positive"@,
                ),
            },
    {
        let s = match *self {
            BuildFateBodyError::MassNotPositive(m) => frame(
                "body mass ",
                &show,
                m,
                " M_earth is not finite and positive",
            ),
            BuildFateBodyError::DensityNotPositive(d) => frame(
                "body density ",
                &show,
                d,
                " kg/m^3 is not finite and positive",
            ),
        };
        proof {
            reveal_strlit(" M_earth is not finite and positive");
            reveal_strlit(" kg/m^3 is not finite and positive");
            reveal_strlit("body density ");
            reveal_strlit("body mass ");
            match *self {
                BuildFateBodyError::MassNotPositive(m) => lemma_framed_in_error_style(
                    s@,
                    "body mass "@,
                    show,
                    m,
                    " M_earth is not finite and positive"@,
                ),
                BuildFateBodyError::DensityNotPositive(d) => lemma_framed_in_error_style(
                    s@,
                    "body density "@,
                    show,
                    d,
                    " kg/m^3 is not finite and positive"@,
                ),
            }
        }
        s
    }
}

/// What the fate transform reads of a body: its formation, its primordial orbit, its mass, its
/// bulk density and how its orbit circularises. Quantities are in the caller's type `Q`, the
/// orbit in `O`.
#[derive(Debug, Clone, Copy, PartialEq)]
pub struct FateBody<Q, O> {
    formation: Formation<Q>,
    orbit: O,
    mass: Q,
    density: Q,
    circularisation: Circularisation<Q>,
}

/// The view of a fate body: its formation, orbit, mass, density and circularisation.
pub struct FateBodyView<Q, O> {
    /// When the body forms.
    pub formation: Formation<Q>,
    /// The primordial orbit.
    pub orbit: O,
    /// The mass.
    pub mass: Q,
    /// The bulk density.
    pub density: Q,
    /// How the orbit circularises.
    pub circularisation: Circularisation<Q>,
}

impl<Q, O> View for FateBody<Q, O> {
    type V = FateBodyView<Q, O>;

    closed spec fn view(&self) -> FateBodyView<Q, O> {
        FateBodyView {
            formation: self.formation,
            orbit: self.orbit,
            mass: self.mass,
            density: self.density,
            circularisation: self.circularisation,
        }
    }
}

impl<Q: Copy, O: Copy> FateBody<Q, O> {
    /// A body that forms as `formation` says on the primordial `orbit`, of `mass` and bulk
    /// `density`, with no circularisation until
    /// [`with_circularisation`](Self::with_circularisation).
    ///
    /// # Errors
    ///
    /// [`BuildFateBodyError::MassNotPositive`] and [`BuildFateBodyError::DensityNotPositive`]
    /// unless the mass and the density are finite and positive, the mass first.
    pub fn new(formation: Formation<Q>, orbit: O, mass: Quantity<Q>, density: Quantity<Q>) -> (r:
        Result<Self, BuildFateBodyError<Q>>)
        ensures
            !mass.sign.positive_and_finite() ==> r == Err::<Self, BuildFateBodyError<Q>>(
                BuildFateBodyError::MassNotPositive(mass.value),
            ),
            mass.sign.positive_and_finite() && !density.sign.positive_and_finite() ==> r == Err::<
                Self,
                BuildFateBodyError<Q>,
            >(BuildFateBodyError::DensityNotPositive(density.value)),
            mass.sign.positive_and_finite() && density.sign.positive_and_finite() ==> (r matches Ok(
                b,
            ) && b@ == FateBodyView {
                formation,
                orbit,
                mass: mass.value,
                density: density.value,
                circularisation: b@.circularisation,
            } && b@.circularisation@ is None),
    {
        if !mass.sign.is_positive_and_finite() {
            return Err(BuildFateBodyError::MassNotPositive(mass.value));
        }
        if !density.sign.is_positive_and_finite() {
            return Err(BuildFateBodyError::DensityNotPositive(density.value));
        }
        Ok(FateBody {
            formation,
            orbit,
            mass: mass.value,
            density: density.value,
            circularisation: Circularisation::none(),
        })
    }

    /// The same body, circularising as `circularisation` says.
    pub fn with_circularisation(self, circularisation: Circularisation<Q>) -> (b: Self)
        ensures
            b@ == (FateBodyView { circularisation, ..self@ }),
    {
        FateBody { circularisation, ..self }
    }

    /// When the body forms.
    pub fn formation(&self) -> (f: &Formation<Q>)
        ensures
            *f == self@.formation,
    {
        &self.formation
    }

    /// The primordial orbit, about the host's initial mass.
    pub fn orbit(&self) -> (o: &O)
        ensures
            *o == self@.orbit,
    {
        &self.orbit
    }

    /// The mass.
    pub fn mass(&self) -> (m: Q)
        ensures
            m == self@.mass,
    {
        self.mass
    }

    /// The bulk density.
    pub fn density(&self) -> (d: Q)
        ensures
            d == self@.density,
    {
        self.density
    }

    /// How the orbit circularises.
    pub fn circularisation(&self) -> (c: Circularisation<Q>)
        ensures
            c == self@.circularisation,
    {
        self.circularisation
    }
}

/// A [`FateHost`] could not be built from the stars given, with ages in the caller's type `Q`.
#[derive(Debug, Clone, Copy, PartialEq)]
pub enum BuildFateHostError<Q> {
    /// No star was given.
    NoStars,
    /// Two of the stars have different ages at the epoch, which the stars of one system never
    /// do.
    NotCoeval {
        /// The first star's age at the epoch.
        first: Q,
        /// The other's.
        other: Q,
    },
}

impl<Q: Copy> BuildFateHostError<Q> {
    /// The error's message, with the ages written by `show`: such as `host stars aged 1 yr and
    /// 2 yr at the epoch are not coeval`.
    pub fn message<F: Fn(Q) -> String>(&self, show: F) -> (s: String)
        requires
            forall|q: Q| show.requires((q,)),
        ensures
            error_style(s@),
            match *self {
                BuildFateHostError::NoStars => s@ == "a host has no stars"@,
                BuildFateHostError::NotCoeval { first, other } => framed_two(
                    s@,
                    "host stars aged "@,
                    show,
                    first,
                    " yr and "@,
                    other,
                    " yr at the epoch are not coeval"@,
                ),
            },
    {
        let s = match *self {
            BuildFateHostError::NoStars => literal("a host has no stars"),
            BuildFateHostError::NotCoeval { first, other } => frame_two(
                "host stars aged ",
                &show,
                first,
                " yr and ",
                other,
                " yr at the epoch are not coeval",
            ),
        };
        proof {
            reveal_strlit(" yr and ");
            reveal_strlit(" yr at the epoch are not coeval");
            reveal_strlit("a host has no stars");
            reveal_strlit("host stars aged ");
            match *self {
                BuildFateHostError::NoStars => {},
                BuildFateHostError::NotCoeval{ first, other } => lemma_framed_two_in_error_style(
                    s@,
                    "host stars aged "@,
                    show,
                    first,
                    " yr and "@,
                    other,
                    " yr at the epoch are not coeval"@,
                ),
            }
        }
        s
    }
}

/// The stars a body orbits, as the fate transform reads them: one star for a circumstellar body,
/// and every star below the pair it orbits for a circumbinary one. The stars' order is the order
/// their masses are summed in.
#[derive(Debug, Clone, PartialEq)]
pub struct FateHost<'a, T> {
    stars: Vec<&'a T>,
}

impl<'a, T> View for FateHost<'a, T> {
    type V = Seq<&'a T>;

    closed spec fn view(&self) -> Seq<&'a T> {
        self.stars@
    }
}

impl<'a, T> FateHost<'a, T> {
    /// The single star `star`.
    pub fn star(star: &'a T) -> (host: Self)
        ensures
            host@ == seq![star],
    {
        let mut stars = Vec::new();
        stars.push(star);
        FateHost { stars }
    }

    /// The stars `stars`, each with its age at the epoch, which a circumbinary body orbits
    /// together.
    ///
    /// # Errors
    ///
    /// [`BuildFateHostError::NoStars`] if there are none, and [`BuildFateHostError::NotCoeval`],
    /// with the first star's age and the first that differs from it, if two of them differ in
    /// age at the epoch.
    pub fn stars<Q: Copy>(stars: Vec<(&'a T, Keyed<Q>)>) -> (r: Result<Self, BuildFateHostError<Q>>)
        ensures
            stars.len() == 0 ==> r == Err::<Self, BuildFateHostError<Q>>(BuildFateHostError::NoStars),
            stars.len() > 0 && (forall|k: int|
                0 <= k < stars.len() ==> (#[trigger] stars[k]).1.key == stars[0].1.key) ==> (r matches Ok(
                host,
            ) && host@ == stars@.map_values(|p: (&'a T, Keyed<Q>)| p.0)),
            forall|j: int|
                0 < j < stars.len() && (#[trigger] stars[j]).1.key != stars[0].1.key && (forall|k: int|
                    0 <= k < j ==> (#[trigger] stars[k]).1.key == stars[0].1.key) ==> r == Err::<
                    Self,
                    BuildFateHostError<Q>,
                >(BuildFateHostError::NotCoeval { first: stars[0].1.value, other: stars[j].1.value }),
    {
        if stars.len() == 0 {
            return Err(BuildFateHostError::NoStars);
        }
        let first = stars[0].1;
        let mut members: Vec<&'a T> = Vec::new();
        let mut k: usize = 0;
        while k < stars.len()
            invariant
                0 < stars.len(),
                first == stars[0].1,
                0 <= k <= stars.len(),
                forall|i: int| 0 <= i < k ==> (#[trigger] stars[i]).1.key == first.key,
                members@ == stars@.subrange(0, k as int).map_values(|p: (&'a T, Keyed<Q>)| p.0),
            decreases stars.len() - k,
        {
            let (star, age) = stars[k];
            if age.key != first.key {
                return Err(BuildFateHostError::NotCoeval { first: first.value, other: age.value });
            }
            members.push(star);
            k = k + 1;
            proof {
                assert(stars@.subrange(0, k as int) =~= stars@.subrange(0, k - 1).push(stars@[k - 1]));
            }
        }
        proof {
            assert(stars@.subrange(0, stars.len() as int) =~= stars@);
        }
        Ok(FateHost { stars: members })
    }

    /// The stars, in the order given.
    pub fn members(&self) -> (stars: &[&'a T])
        ensures
            stars@ == self@,
    {
        self.stars.as_slice()
    }
}

/// A body's state and orbit at a time: what [`BodyFate::at`] returns.
///
/// The orbit is of whatever type the history keeps: [`BodyFate::at`] gives the elements the
/// body's segment starts from, and [`FateAt::with_orbit`] puts the elements at the time in their
/// place.
#[derive(Debug, Clone, Copy, PartialEq, Eq, Hash)]
pub struct FateAt<O> {
    state: BodyState,
    orbit: Option<O>,
    valid_until: Option<UniverseTime>,
}

impl<O> View for FateAt<O> {
    type V = (BodyState, Option<O>, Option<UniverseTime>);

    closed spec fn view(&self) -> (BodyState, Option<O>, Option<UniverseTime>) {
        (self.state, self.orbit, self.valid_until)
    }
}

impl<O: Copy> FateAt<O> {
    /// The body's state.
    pub fn state(&self) -> (state: BodyState)
        ensures
            state == self@.0,
    {
        self.state
    }

    /// The body's orbit at the time, if it is present.
    pub fn orbit(&self) -> (orbit: Option<O>)
        ensures
            orbit == self@.1,
    {
        self.orbit
    }

    /// The next time the body's state changes, or its orbit steps, if that is inside the clock
    /// window: its formation, its destruction or unbinding, a host star's sudden death. Between,
    /// the orbit changes only slowly, by the tides and the winds.
    pub fn valid_until(&self) -> (until: Option<UniverseTime>)
        ensures
            until == self@.2,
    {
        self.valid_until
    }

    /// The same state and validity, with `orbit` in place of a present body's orbit; a body that
    /// is not present keeps none.
    pub fn with_orbit<P>(self, orbit: P) -> (at: FateAt<P>)
        ensures
            at@.0 == self@.0,
            at@.2 == self@.2,
            at@.1 == if self@.1 is Some { Some(orbit) } else { None::<P> },
    {
        let orbit = match self.orbit {
            Some(_) => Some(orbit),
            None => None,
        };
        FateAt { state: self.state, orbit, valid_until: self.valid_until }
    }
}

/// A body record's orbit section: the elements, and the time until which the state they belong to
/// holds, if that is inside the clock window.
#[derive(Debug, Clone, Copy, PartialEq, Eq, Hash)]
pub struct BodyOrbit<O> {
    elements: O,
    valid_until: Option<UniverseTime>,
}

impl<O> View for BodyOrbit<O> {
    type V = (O, Option<UniverseTime>);

    closed spec fn view(&self) -> (O, Option<UniverseTime>) {
        (self.elements, self.valid_until)
    }
}

impl<O: Copy> BodyOrbit<O> {
    /// The section of `elements`, holding until `valid_until`.
    pub fn new(elements: O, valid_until: Option<UniverseTime>) -> (b: Self)
        ensures
            b@ == (elements, valid_until),
    {
        BodyOrbit { elements, valid_until }
    }

    /// The elements.
    pub fn elements(&self) -> (e: O)
        ensures
            e == self@.0,
    {
        self.elements
    }

    /// The time until which the state the elements belong to holds, if that is inside the clock
    /// window.
    pub fn valid_until(&self) -> (until: Option<UniverseTime>)
        ensures
            until == self@.1,
    {
        self.valid_until
    }
}

impl<O: Copy> FateAt<O> {
    /// The record's orbit section: the elements and [`FateAt::valid_until`], if the body is
    /// present.
    pub fn body_orbit(&self) -> (b: Option<BodyOrbit<O>>)
        ensures
            self@.1 is None ==> b is None,
            self@.1 matches Some(elements) ==> (b matches Some(o) && o@ == (elements, self@.2)),
    {
        match self.orbit {
            Some(elements) => Some(BodyOrbit::new(elements, self.valid_until)),
            None => None,
        }
    }
}

/// One stretch of a body's life between its host's sudden deaths: when it starts, and the
/// elements it starts from.
#[derive(Debug, Clone, Copy, PartialEq, Eq, Hash)]
pub struct Segment<S> {
    /// When it starts: the body's formation, or a sudden death of a host star.
    pub start: UniverseTime,
    /// The elements it starts from.
    pub elements: S,
}

/// The starts of `segments` in nanoseconds since the epoch.
pub open spec fn starts<S>(segments: Seq<Segment<S>>) -> Seq<int> {
    segments.map_values(|s: Segment<S>| s.start@)
}

/// Whether `starts` never decreases.
pub open spec fn non_decreasing(starts: Seq<int>) -> bool {
    forall|i: int, j: int| 0 <= i <= j < starts.len() ==> starts[i] <= starts[j]
}

/// The position of the last start at or before `t`, or −1 if there is none.
pub open spec fn last_started(starts: Seq<int>, t: int) -> int
    decreases starts.len(),
{
    if starts.len() == 0 {
        -1
    } else if starts.last() <= t {
        starts.len() - 1
    } else {
        last_started(starts.drop_last(), t)
    }
}

/// A body's whole history on its host: when it forms, its segments between its host's sudden
/// deaths, and how and when it ends, fixed once and read at any time by [`BodyFate::at`].
#[derive(Debug, PartialEq, Eq)]
pub struct BodyFate<S> {
    window: ClockWindow,
    formed_at: Option<UniverseTime>,
    segments: Vec<Segment<S>>,
    ending: Option<BodyState>,
}

/// The view of a history: its clock window, formation, segments and ending.
pub struct FateView<S> {
    /// The clock window the history is known over.
    pub window: ClockWindow,
    /// When the body forms, if it does.
    pub formed_at: Option<UniverseTime>,
    /// The segments, in order.
    pub segments: Seq<Segment<S>>,
    /// How the body ends, if it does.
    pub ending: Option<BodyState>,
}

impl<S> View for BodyFate<S> {
    type V = FateView<S>;

    closed spec fn view(&self) -> FateView<S> {
        FateView {
            window: self.window,
            formed_at: self.formed_at,
            segments: self.segments@,
            ending: self.ending,
        }
    }
}

impl<S> FateView<S> {
    /// The shape every history has: a body that never forms has no segments and no ending; a
    /// body that forms starts its first segment then; segments start in order; and an ending is
    /// a destruction or an unbinding no earlier than the last segment's start.
    pub open spec fn wf(self) -> bool {
        &&& self.formed_at is None ==> self.segments.len() == 0 && self.ending is None
        &&& self.formed_at matches Some(f) ==> self.segments.len() >= 1 && self.segments[0].start
            == f
        &&& non_decreasing(starts(self.segments))
        &&& self.ending matches Some(e) ==> end_time(e) is Some && self.segments.len() >= 1
            && self.segments.last().start@ <= end_time(e).unwrap()@
    }

    /// The segment the body is on at `t`, by position, or −1 before the first.
    pub open spec fn segment_at(self, t: UniverseTime) -> int {
        last_started(starts(self.segments), t@)
    }

    /// The body's state at `t`.
    pub open spec fn state_at(self, t: UniverseTime) -> BodyState {
        match self.formed_at {
            None => BodyState::NotYetFormed,
            Some(f) => if t@ < f@ {
                BodyState::NotYetFormed
            } else {
                match self.ending {
                    Some(e) => if end_time(e) is Some && end_time(e).unwrap()@ <= t@ {
                        e
                    } else {
                        BodyState::Present
                    },
                    None => BodyState::Present,
                }
            },
        }
    }

    /// The next change after `t`, whether or not the clock window holds it.
    pub open spec fn next_change(self, t: UniverseTime) -> Option<UniverseTime> {
        match self.state_at(t) {
            BodyState::NotYetFormed => self.formed_at,
            BodyState::Present => {
                let i = self.segment_at(t);
                if i + 1 < self.segments.len() {
                    Some(self.segments[i + 1].start)
                } else {
                    match self.ending {
                        Some(e) => end_time(e),
                        None => None,
                    }
                }
            },
            _ => None,
        }
    }

    /// What [`BodyFate::at`] returns at `t`.
    pub open spec fn fate_at(self, t: UniverseTime) -> (
        BodyState,
        Option<S>,
        Option<UniverseTime>,
    ) {
        let state = self.state_at(t);
        let orbit = if state is Present {
            Some(self.segments[self.segment_at(t)].elements)
        } else {
            None
        };
        let until = match self.next_change(t) {
            Some(n) => if self.window.holds(n) { Some(n) } else { None },
            None => None,
        };
        (state, orbit, until)
    }
}

/// A segment that starts no earlier than the last keeps the starts in order.
proof fn lemma_push_keeps_order<S>(segments: Seq<Segment<S>>, segment: Segment<S>)
    requires
        non_decreasing(starts(segments)),
        segments.len() >= 1,
        segments.last().start@ <= segment.start@,
    ensures
        non_decreasing(starts(segments.push(segment))),
        segments.push(segment).last() == segment,
        segments.push(segment)[0] == segments[0],
{
    let s = starts(segments);
    let p = starts(segments.push(segment));
    assert(p =~= s.push(segment.start@));
    assert forall|i: int, j: int| 0 <= i <= j < p.len() implies p[i] <= p[j] by {
        if j == p.len() - 1 && i < j {
            assert(s[i] <= s[s.len() - 1]);
        }
    }
}

/// `last_started` of a sequence never past its own length, and its start at or before `t`.
proof fn lemma_last_started<S>(segments: Seq<Segment<S>>, t: int)
    ensures
        -1 <= last_started(starts(segments), t) < segments.len(),
        last_started(starts(segments), t) >= 0 ==> segments[last_started(
            starts(segments),
            t,
        )].start@ <= t,
        forall|j: int|
            last_started(starts(segments), t) < j < segments.len() ==> segments[j].start@ > t,
    decreases segments.len(),
{
    let s = starts(segments);
    if segments.len() > 0 {
        let rest = segments.drop_last();
        assert(s.drop_last() =~= starts(rest));
        lemma_last_started(rest, t);
        assert forall|j: int|
            last_started(s, t) < j < segments.len() implies segments[j].start@ > t by {
            if j < segments.len() - 1 {
                assert(rest[j] == segments[j]);
            }
        }
    }
}

impl<S> BodyFate<S> {
    /// Every history has the shape of [`FateView::wf`].
    #[verifier::type_invariant]
    spec fn well_formed(self) -> bool {
        self@.wf()
    }
}

impl<S: Copy> BodyFate<S> {
    /// The history of a body that never forms.
    pub fn never_formed(window: ClockWindow) -> (fate: Self)
        ensures
            fate@.window == window,
            fate@.formed_at is None,
            fate@.segments.len() == 0,
            fate@.ending is None,
    {
        BodyFate { window, formed_at: None, segments: Vec::new(), ending: None }
    }

    /// The history of a body that forms at `formed` on `elements`, with nothing after yet.
    pub fn formed(window: ClockWindow, formed: UniverseTime, elements: S) -> (fate: Self)
        ensures
            fate@.window == window,
            fate@.formed_at == Some(formed),
            fate@.segments == seq![Segment { start: formed, elements }],
            fate@.ending is None,
    {
        let mut segments = Vec::new();
        segments.push(Segment { start: formed, elements });
        proof {
            assert(starts(segments@).len() == 1);
        }
        BodyFate { window, formed_at: Some(formed), segments, ending: None }
    }

    /// When the body forms, or `None` if it never does.
    pub fn formed_at(&self) -> (at: Option<UniverseTime>)
        ensures
            at == self@.formed_at,
    {
        self.formed_at
    }

    /// How the body ends, if it does before the host's history known to the transform ends: a
    /// [`BodyState::Destroyed`] or [`BodyState::Unbound`] with its time.
    pub fn ending(&self) -> (ending: Option<BodyState>)
        ensures
            ending == self@.ending,
    {
        self.ending
    }

    /// The clock window the history is known over.
    pub fn window(&self) -> (window: ClockWindow)
        ensures
            window == self@.window,
    {
        self.window
    }

    /// The segment the body is on last, if it has formed.
    pub fn last_segment(&self) -> (segment: Option<Segment<S>>)
        ensures
            segment == if self@.segments.len() == 0 {
                None::<Segment<S>>
            } else {
                Some(self@.segments.last())
            },
            self@.wf(),
    {
        proof {
            use_type_invariant(self);
        }
        if self.segments.len() == 0 {
            None
        } else {
            Some(self.segments[self.segments.len() - 1])
        }
    }

    /// Continues the history with a new segment from `start` on `elements`, as a sudden death
    /// leaves a body bound; refused (`false`, with nothing changed) if the body has not formed,
    /// has ended, or `start` is before its last segment's start.
    pub fn continue_from(&mut self, start: UniverseTime, elements: S) -> (accepted: bool)
        ensures
            accepted == (old(self)@.formed_at is Some && old(self)@.ending is None && old(
                self,
            )@.segments.last().start@ <= start@),
            accepted ==> final(self)@.segments == old(self)@.segments.push(
                Segment { start, elements },
            ),
            !accepted ==> final(self)@ == old(self)@,
            final(self)@.window == old(self)@.window,
            final(self)@.formed_at == old(self)@.formed_at,
            final(self)@.ending == old(self)@.ending,
    {
        proof {
            use_type_invariant(&*self);
        }
        if self.formed_at.is_none() || self.ending.is_some() {
            return false;
        }
        let last = self.segments[self.segments.len() - 1].start;
        if start.is_before(&last) {
            return false;
        }
        let segment = Segment { start, elements };
        proof {
            lemma_push_keeps_order(self.segments@, segment);
        }
        let window = self.window;
        let mut taken = BodyFate::never_formed(window);
        std::mem::swap(&mut taken, self);
        let BodyFate { window, formed_at, mut segments, ending } = taken;
        let ghost before = segments@;
        segments.push(segment);
        proof {
            assert(segments@ == before.push(segment));
            assert(formed_at is Some && ending is None);
            assert(non_decreasing(starts(segments@)));
        }
        *self = BodyFate { window, formed_at, segments, ending };
        true
    }

    /// Puts `elements` in place of those the body's last segment starts from, as the scattering
    /// at the death that segment starts at leaves it; refused (`false`, with nothing changed) if
    /// the body has not formed or has ended.
    pub fn settle(&mut self, elements: S) -> (accepted: bool)
        ensures
            accepted == (old(self)@.formed_at is Some && old(self)@.ending is None),
            accepted ==> final(self)@.segments == old(self)@.segments.update(
                old(self)@.segments.len() - 1,
                Segment { start: old(self)@.segments.last().start, elements },
            ),
            !accepted ==> final(self)@ == old(self)@,
            final(self)@.window == old(self)@.window,
            final(self)@.formed_at == old(self)@.formed_at,
            final(self)@.ending == old(self)@.ending,
    {
        proof {
            use_type_invariant(&*self);
        }
        if self.formed_at.is_none() || self.ending.is_some() {
            return false;
        }
        let window = self.window;
        let mut taken = BodyFate::never_formed(window);
        std::mem::swap(&mut taken, self);
        let BodyFate { window, formed_at, mut segments, ending } = taken;
        let ghost before = segments@;
        let last = segments.len() - 1;
        let start = segments[last].start;
        segments.set(last, Segment { start, elements });
        proof {
            assert(starts(segments@) =~= starts(before));
        }
        *self = BodyFate { window, formed_at, segments, ending };
        true
    }

    /// Ends the history with `ending`, a destruction or an unbinding; refused (`false`, with
    /// nothing changed) if the body has not formed, has ended already, `ending` is no such
    /// state, or it comes before the last segment's start.
    pub fn end_with(&mut self, ending: BodyState) -> (accepted: bool)
        ensures
            accepted == (old(self)@.formed_at is Some && old(self)@.ending is None && end_time(
                ending,
            ) is Some && old(self)@.segments.last().start@ <= end_time(ending).unwrap()@),
            accepted ==> final(self)@.ending == Some(ending),
            !accepted ==> final(self)@.ending == old(self)@.ending,
            final(self)@.window == old(self)@.window,
            final(self)@.formed_at == old(self)@.formed_at,
            final(self)@.segments == old(self)@.segments,
    {
        proof {
            use_type_invariant(&*self);
        }
        if self.formed_at.is_none() || self.ending.is_some() {
            return false;
        }
        let at = match ending.ended_at() {
            Some(at) => at,
            None => return false,
        };
        let last = self.segments[self.segments.len() - 1].start;
        if at.is_before(&last) {
            return false;
        }
        self.ending = Some(ending);
        true
    }

    /// The body's state, the elements of its segment, and the next change inside the clock
    /// window, at `t`.
    pub fn at(&self, t: UniverseTime) -> (r: FateAt<S>)
        ensures
            r@ == self@.fate_at(t),
    {
        proof {
            use_type_invariant(self);
        }
        let formed = match self.formed_at {
            None => return FateAt { state: BodyState::NotYetFormed, orbit: None, valid_until: None },
            Some(f) => f,
        };
        if t.is_before(&formed) {
            let valid_until = if self.window.contains(&formed) {
                Some(formed)
            } else {
                None
            };
            return FateAt { state: BodyState::NotYetFormed, orbit: None, valid_until };
        }
        if let Some(ending) = self.ending {
            if let Some(at) = ending.ended_at() {
                if at.is_at_or_before(&t) {
                    return FateAt { state: ending, orbit: None, valid_until: None };
                }
            }
        }
        let index = self.last_started_at(t);
        let next = if index + 1 < self.segments.len() {
            Some(self.segments[index + 1].start)
        } else {
            match self.ending {
                Some(ending) => ending.ended_at(),
                None => None,
            }
        };
        let valid_until = match next {
            Some(n) => if self.window.contains(&n) {
                Some(n)
            } else {
                None
            },
            None => None,
        };
        FateAt { state: BodyState::Present, orbit: Some(self.segments[index].elements), valid_until }
    }

    /// The position of the last segment started at or before `t`, for a formed body at or after
    /// its formation.
    fn last_started_at(&self, t: UniverseTime) -> (index: usize)
        requires
            self@.wf(),
            self@.segments.len() >= 1,
            self@.segments[0].start@ <= t@,
        ensures
            index as int == self@.segment_at(t),
            index < self@.segments.len(),
            index < self.segments.len(),
    {
        let ghost segs = self@.segments;
        proof {
            lemma_last_started(segs, t@);
        }
        let mut index: usize = 0;
        while index + 1 < self.segments.len() && self.segments[index + 1].start.is_at_or_before(&t)
            invariant
                segs == self@.segments,
                self@.wf(),
                index < segs.len(),
                index < self.segments.len(),
                segs[index as int].start@ <= t@,
                index as int <= last_started(starts(segs), t@),
                -1 <= last_started(starts(segs), t@) < segs.len(),
                forall|j: int| last_started(starts(segs), t@) < j < segs.len() ==> segs[j].start@ > t@,
            decreases segs.len() - index,
        {
            index = index + 1;
        }
        proof {
            let k = last_started(starts(segs), t@);
            if (index as int) < k {
                let st = starts(segs);
                assert(st[index + 1] <= st[k]);
                assert(segs[k].start@ <= t@) by {
                    lemma_last_started(segs, t@);
                }
            }
        }
        index
    }
}

/// The state sequence is a prefix of not yet formed → present → destroyed or unbound: a later
/// time is never earlier in the sequence, and a body gone stays gone the same way.
pub proof fn lemma_states_form_a_prefix<S>(fate: FateView<S>, t1: UniverseTime, t2: UniverseTime)
    requires
        fate.wf(),
        t1@ <= t2@,
    ensures
        state_rank(fate.state_at(t1)) <= state_rank(fate.state_at(t2)),
        state_rank(fate.state_at(t1)) == 2 ==> fate.state_at(t2) == fate.state_at(t1),
{
}

/// A body is not yet formed exactly before its formation, and never formed if it never forms.
pub proof fn lemma_not_yet_formed_exactly_before_formation<S>(fate: FateView<S>, t: UniverseTime)
    requires
        fate.wf(),
    ensures
        (fate.state_at(t) is NotYetFormed) <==> (fate.formed_at matches Some(f) ==> t@ < f@),
{
}

/// The next change is after the time asked about, and until it the body keeps its state and its
/// segment: the history has nothing to tell between.
pub proof fn lemma_nothing_changes_before_the_next_change<S>(
    fate: FateView<S>,
    t: UniverseTime,
    u: UniverseTime,
)
    requires
        fate.wf(),
        t@ <= u@,
        fate.next_change(t) matches Some(n) ==> u@ < n@,
    ensures
        fate.next_change(t) matches Some(n) ==> t@ < n@,
        fate.state_at(u) == fate.state_at(t),
        fate.state_at(t) is Present ==> fate.segment_at(u) == fate.segment_at(t),
{
    lemma_last_started(fate.segments, t@);
    lemma_last_started(fate.segments, u@);
    let st = starts(fate.segments);
    if fate.state_at(t) is Present {
        let i = fate.segment_at(t);
        let k = fate.segment_at(u);
        if k > i {
            assert(st[i + 1] <= st[k]);
        }
    }
}

/// Reading a history at `t`: a body is not yet formed before its formation (and always, if it
/// never forms); after its ending's time it is in that ending, with no orbit and nothing to
/// come; in between it is present on the elements of the segment that started last at or before
/// `t`, its `i`-th, and the reading holds until the next segment's start, where the window holds
/// it.
pub proof fn lemma_reading_a_history<S>(fate: FateView<S>, t: UniverseTime, i: int)
    requires
        fate.wf(),
    ensures
        ({
            let f = fate.formed_at.unwrap();
            let e = fate.ending.unwrap();
            let ended = fate.ending is Some && end_time(e).unwrap()@ <= t@;
            &&& fate.formed_at is None ==> fate.fate_at(t) == (
                BodyState::NotYetFormed,
                None::<S>,
                None::<UniverseTime>,
            )
            &&& fate.formed_at is Some && t@ < f@ ==> fate.fate_at(t).0 is NotYetFormed
                && fate.fate_at(t).1 is None
            &&& fate.formed_at is Some && f@ <= t@ && ended ==> fate.fate_at(t) == (
                e,
                None::<S>,
                None::<UniverseTime>,
            )
            &&& fate.formed_at is Some && f@ <= t@ && !ended && 0 <= i < fate.segments.len()
                && fate.segments[i].start@ <= t@ && (i + 1 < fate.segments.len() ==> t@
                < fate.segments[i + 1].start@) ==> {
                &&& fate.fate_at(t).0 is Present
                &&& fate.fate_at(t).1 == Some(fate.segments[i].elements)
                &&& i + 1 < fate.segments.len() ==> fate.fate_at(t).2 == if fate.window.holds(
                    fate.segments[i + 1].start,
                ) {
                    Some(fate.segments[i + 1].start)
                } else {
                    None
                }
            }
        }),
{
    lemma_last_started(fate.segments, t@);
    let st = starts(fate.segments);
    let k = fate.segment_at(t);
    if fate.formed_at is Some && fate.formed_at.unwrap()@ <= t@ && 0 <= i < fate.segments.len()
        && fate.segments[i].start@ <= t@ && (i + 1 < fate.segments.len() ==> t@
        < fate.segments[i + 1].start@) {
        assert(st[i] == fate.segments[i].start@);
        if k < i {
            assert(fate.segments[i].start@ > t@);
        }
        if k > i {
            assert(st[i + 1] <= st[k]);
        }
        assert(k == i);
    }
}

/// The last time a host's stars are known: the latest of their deaths if every one has died by
/// the end of the clock window, and the end of the window otherwise, after which nothing
/// changes.
pub fn known_until(
    deaths: &Vec<Option<UniverseTime>>,
    window_end: UniverseTime,
) -> (until: UniverseTime)
    ensures
        (exists|k: int| 0 <= k < deaths.len() && deaths[k] is None) || deaths.len() == 0
            ==> until == window_end,
        deaths.len() > 0 && (forall|k: int| 0 <= k < deaths.len() ==> deaths[k] is Some) ==> {
            &&& exists|k: int| 0 <= k < deaths.len() && deaths[k] == Some(until)
            &&& forall|k: int|
                0 <= k < deaths.len() ==> (#[trigger] deaths[k] matches Some(d) && d@ <= until@)
        },
{
    let mut latest: Option<UniverseTime> = None;
    let mut k: usize = 0;
    while k < deaths.len()
        invariant
            0 <= k <= deaths.len(),
            forall|j: int| 0 <= j < k ==> deaths[j] is Some,
            k == 0 <==> latest is None,
            latest matches Some(l) ==> (exists|j: int| 0 <= j < k && deaths[j] == Some(l)) && (
            forall|j: int| 0 <= j < k ==> (#[trigger] deaths[j] matches Some(d) && d@ <= l@)),
        decreases deaths.len() - k,
    {
        match deaths[k] {
            None => return window_end,
            Some(d) => {
                latest = match latest {
                    None => Some(d),
                    Some(l) => Some(l.latest(d)),
                };
            },
        }
        k = k + 1;
    }
    match latest {
        Some(l) => l,
        None => window_end,
    }
}

/// When a body forms: at `candidate`, its formation age on its host's clock, unless one of its
/// host stars has died by then, since a death ends its disc; or never, beyond the clock.
pub fn formation_time(
    candidate: Option<UniverseTime>,
    deaths: &Vec<Option<UniverseTime>>,
) -> (formed: Option<UniverseTime>)
    ensures
        formed == match candidate {
            Some(c) => if forall|k: int|
                0 <= k < deaths.len() ==> (#[trigger] deaths[k] matches Some(d) ==> c@ < d@) {
                Some(c)
            } else {
                None::<UniverseTime>
            },
            None => None::<UniverseTime>,
        },
{
    let c = match candidate {
        None => return None,
        Some(c) => c,
    };
    let mut k: usize = 0;
    while k < deaths.len()
        invariant
            candidate == Some(c),
            0 <= k <= deaths.len(),
            forall|j: int| 0 <= j < k ==> (#[trigger] deaths[j] matches Some(d) ==> c@ < d@),
        decreases deaths.len() - k,
    {
        if let Some(d) = deaths[k] {
            if !c.is_before(&d) {
                assert(deaths[k as int] matches Some(d) && !(c@ < d@));
                return None;
            }
        }
        k = k + 1;
    }
    Some(c)
}

/// How a host star's life ends by the end of the clock window: when, and whether suddenly (an
/// explosion or a collapse, and not a white dwarf's birth, which winds make slow).
#[derive(Debug, Clone, Copy, PartialEq, Eq, Hash, Structural)]
pub struct StarDeath {
    /// The clock time of the death.
    pub at: UniverseTime,
    /// Whether the death is sudden.
    pub sudden: bool,
}

/// Whether `a` comes before `b` by time, then by star.
pub open spec fn death_before(a: (UniverseTime, usize), b: (UniverseTime, usize)) -> bool {
    a.0@ < b.0@ || (a.0@ == b.0@ && a.1 < b.1)
}

/// Whether host star `k` dies suddenly at `at`.
pub open spec fn dies_suddenly_at(deaths: Seq<Option<StarDeath>>, k: int, at: UniverseTime) -> bool {
    0 <= k < deaths.len() && deaths[k] == Some(StarDeath { at, sudden: true })
}

/// The sudden deaths among a host's stars, as (time, star) in the order the history meets them:
/// by time, and by the stars' order at the same time.
pub fn sudden_deaths(deaths: &Vec<Option<StarDeath>>) -> (order: Vec<(UniverseTime, usize)>)
    ensures
        forall|i: int, j: int|
            0 <= i < j < order.len() ==> death_before(#[trigger] order[i], #[trigger] order[j]),
        forall|i: int|
            0 <= i < order.len() ==> dies_suddenly_at(deaths@, #[trigger] order[i].1 as int, order[i].0),
        forall|k: int, at: UniverseTime|
            #[trigger] dies_suddenly_at(deaths@, k, at) ==> exists|i: int|
                0 <= i < order.len() && #[trigger] order[i] == (at, k as usize),
{
    let mut order: Vec<(UniverseTime, usize)> = Vec::new();
    let mut k: usize = 0;
    while k < deaths.len()
        invariant
            0 <= k <= deaths.len(),
            forall|i: int, j: int|
                0 <= i < j < order.len() ==> death_before(#[trigger] order[i], #[trigger] order[j]),
            forall|i: int|
                0 <= i < order.len() ==> (order[i].1 < k && dies_suddenly_at(
                    deaths@,
                    #[trigger] order[i].1 as int,
                    order[i].0,
                )),
            forall|j: int, at: UniverseTime|
                0 <= j < k && #[trigger] dies_suddenly_at(deaths@, j, at) ==> exists|i: int|
                    0 <= i < order.len() && #[trigger] order[i] == (at, j as usize),
        decreases deaths.len() - k,
    {
        if let Some(death) = deaths[k] {
            if death.sudden {
                let at = death.at;
                let mut p: usize = 0;
                while p < order.len() && order[p].0.is_at_or_before(&at)
                    invariant
                        0 <= p <= order.len(),
                        forall|i: int| 0 <= i < p ==> (#[trigger] order[i]).0@ <= at@,
                    decreases order.len() - p,
                {
                    p = p + 1;
                }
                let ghost before = order@;
                proof {
                    assert(p < order.len() ==> at@ < order[p as int].0@);
                    before.insert_ensures(p as int, (at, k));
                }
                order.insert(p, (at, k));
                proof {
                    let after = order@;
                    assert forall|i: int, j: int|
                        0 <= i < j < after.len() implies death_before(
                        #[trigger] after[i],
                        #[trigger] after[j],
                    ) by {
                        if j < p {
                            assert(after[i] == before[i] && after[j] == before[j]);
                        } else if j == p {
                            assert(after[i] == before[i]);
                        } else if i == p {
                            assert(after[j] == before[j - 1]);
                            if j - 1 > p {
                                assert(death_before(before[p as int], before[j - 1]));
                            }
                        } else if i < p {
                            assert(after[i] == before[i] && after[j] == before[j - 1]);
                        } else {
                            assert(after[i] == before[i - 1] && after[j] == before[j - 1]);
                        }
                    }
                    assert forall|j: int, t: UniverseTime|
                        0 <= j < k + 1 && #[trigger] dies_suddenly_at(deaths@, j, t) implies exists|i: int|
                        0 <= i < after.len() && #[trigger] after[i] == (t, j as usize) by {
                        if j == k {
                            assert(after[p as int] == (t, j as usize));
                        } else {
                            let i0 = choose|i: int| 0 <= i < before.len() && #[trigger] before[i] == (t, j as usize);
                            if i0 < p {
                                assert(after[i0] == before[i0]);
                            } else {
                                assert(after[i0 + 1] == before[i0]);
                            }
                        }
                    }
                }
            }
        }
        k = k + 1;
    }
    order
}

/// What a sudden death of a host star leaves of a body: bound on new elements, disrupted at a
/// time (after following `orbit` until then, where it has one), or unbound.
#[derive(Debug, Clone, Copy, PartialEq, Eq, Hash)]
pub enum Aftermath<S> {
    /// The body is bound on these elements, about the mass left.
    Bound(S),
    /// The body's new orbit carries it inside the remnant's Roche limit, where it is disrupted at
    /// `at`: at its next pericentre passage on `orbit`, or at once where there is none to follow.
    Disrupted {
        /// The orbit it follows until then.
        orbit: Option<S>,
        /// When it is disrupted.
        at: UniverseTime,
    },
    /// The body is no longer bound.
    Unbound,
}

/// The last instant of the stretch of a body's life before the next sudden death at `next`, or
/// `last`, the end of the host's known history, if there is none; `None` where the clock holds
/// no instant before the death.
pub fn stretch_end(next: Option<UniverseTime>, last: UniverseTime) -> (end: Option<UniverseTime>)
    ensures
        next is None ==> end == Some(last),
        next matches Some(n) ==> (end is Some <==> crate::time::on_clock(n@ - 1)),
        next matches Some(n) ==> (end matches Some(e) ==> e@ == n@ - 1),
{
    match next {
        None => Some(last),
        Some(n) => n.nanosecond_before(),
    }
}

impl<S: Copy> BodyFate<S> {
    /// Ends a formed body's history with its engulfment at `at`, if it has not ended and `at` is
    /// no earlier than its last segment's start; refused (`false`) otherwise.
    pub fn engulfed(&mut self, at: UniverseTime) -> (accepted: bool)
        ensures
            accepted == (old(self)@.formed_at is Some && old(self)@.ending is None && old(
                self,
            )@.segments.last().start@ <= at@),
            accepted ==> final(self)@.ending == Some(
                BodyState::Destroyed { cause: DestructionCause::Engulfed, at },
            ),
            !accepted ==> final(self)@.ending == old(self)@.ending,
            final(self)@.window == old(self)@.window,
            final(self)@.formed_at == old(self)@.formed_at,
            final(self)@.segments == old(self)@.segments,
    {
        self.end_with(BodyState::Destroyed { cause: DestructionCause::Engulfed, at })
    }

    /// Applies what the sudden death at `death` left of the body: a new segment from the death
    /// for a bound body; for a disrupted one, the orbit it follows from the death where it has
    /// one, then its destruction by the tides; and its unbinding at the death for an unbound one.
    /// Refused (`false`, with nothing changed) unless the body has formed, has not ended, and the
    /// death and any disruption come no earlier than its last segment's start, the disruption no
    /// earlier than the death.
    pub fn apply_aftermath(&mut self, death: UniverseTime, aftermath: Aftermath<S>) -> (accepted:
        bool)
        ensures
            accepted == (old(self)@.formed_at is Some && old(self)@.ending is None && old(
                self,
            )@.segments.last().start@ <= death@ && (aftermath matches Aftermath::Disrupted {
                at,
                ..
            } ==> death@ <= at@)),
            !accepted ==> final(self)@ == old(self)@,
            final(self)@.window == old(self)@.window,
            final(self)@.formed_at == old(self)@.formed_at,
            accepted ==> match aftermath {
                Aftermath::Bound(elements) => final(self)@.segments == old(self)@.segments.push(
                    Segment { start: death, elements },
                ) && final(self)@.ending is None,
                Aftermath::Disrupted { orbit, at } => final(self)@.segments == (match orbit {
                    Some(elements) => old(self)@.segments.push(Segment { start: death, elements }),
                    None => old(self)@.segments,
                }) && final(self)@.ending == Some(
                    BodyState::Destroyed { cause: DestructionCause::TidallyDisrupted, at },
                ),
                Aftermath::Unbound => final(self)@.segments == old(self)@.segments
                    && final(self)@.ending == Some(BodyState::Unbound { at: death }),
            },
    {
        proof {
            use_type_invariant(&*self);
        }
        if self.formed_at.is_none() || self.ending.is_some() {
            return false;
        }
        let last = self.segments[self.segments.len() - 1].start;
        if death.is_before(&last) {
            return false;
        }
        match aftermath {
            Aftermath::Bound(elements) => {
                let accepted = self.continue_from(death, elements);
                assert(accepted);
                true
            },
            Aftermath::Disrupted { orbit, at } => {
                if at.is_before(&death) {
                    return false;
                }
                if let Some(elements) = orbit {
                    let accepted = self.continue_from(death, elements);
                    assert(accepted);
                }
                let ended = self.end_with(
                    BodyState::Destroyed { cause: DestructionCause::TidallyDisrupted, at },
                );
                assert(ended);
                true
            },
            Aftermath::Unbound => {
                let ended = self.end_with(BodyState::Unbound { at: death });
                assert(ended);
                true
            },
        }
    }
}

/// Whether the deaths `sudden` come in order of time, none before `from`.
pub open spec fn deaths_in_order(sudden: Seq<(UniverseTime, usize)>, from: UniverseTime) -> bool {
    &&& forall|i: int, j: int| 0 <= i <= j < sudden.len() ==> sudden[i].0@ <= sudden[j].0@
    &&& sudden.len() > 0 ==> from@ <= sudden[0].0@
}

/// Whether `engulfment` gives only times from the start of the segment it is asked about: the
/// first time in its stretch at which the body is engulfed.
pub open spec fn engulfs_in_stretch<S, F: Fn(Segment<S>, UniverseTime) -> Option<UniverseTime>>(
    engulfment: F,
) -> bool {
    forall|segment: Segment<S>, end: UniverseTime, at: UniverseTime|
        #[trigger] engulfment.ensures((segment, end), Some(at)) ==> segment.start@ <= at@
}

/// Whether `explode` disrupts a body only at or after the death: at its next pericentre, or at
/// once.
pub open spec fn disrupts_after_death<S, G: Fn(Segment<S>, UniverseTime, usize) -> Aftermath<S>>(
    explode: G,
) -> bool {
    forall|segment: Segment<S>, death: UniverseTime, star: usize, orbit: Option<S>, at: UniverseTime|
        #[trigger] explode.ensures((segment, death, star), Aftermath::Disrupted { orbit, at })
            ==> death@ <= at@
}

/// The `k`-th of the deaths `sudden`, if there is one.
pub open spec fn next_death(sudden: Seq<(UniverseTime, usize)>, k: int) -> Option<(UniverseTime, usize)> {
    if 0 <= k < sudden.len() {
        Some(sudden[k])
    } else {
        None
    }
}

/// The last instant, in nanoseconds, of the stretch before the death `next`, or `last` where
/// there is none ([`stretch_end`]); `None` where the clock holds no instant before the death.
pub open spec fn stretch_end_of(next: Option<(UniverseTime, usize)>, last: UniverseTime) -> Option<
    int,
> {
    match next {
        None => Some(last@),
        Some((n, _)) => if crate::time::on_clock(n@ - 1) {
            Some(n@ - 1)
        } else {
            None
        },
    }
}

/// Whether `engulfment` found the body on `segment` not engulfed through the stretch ending at
/// `end`, where it was asked.
pub open spec fn found_clear<S, F: Fn(Segment<S>, UniverseTime) -> Option<UniverseTime>>(
    engulfment: F,
    segment: Segment<S>,
    end: Option<int>,
) -> bool {
    end matches Some(e) ==> exists|t: UniverseTime|
        t@ == e && #[trigger] engulfment.ensures((segment, t), None)
}

/// Whether the `j`-th death of `sudden` took the history `segments`, whose first `n0` segments
/// it had before the walk, from its segment `n0 - 1 + j` to its segment `n0 + j`: `engulfment`
/// found the body clear through the stretch before the death, and `explode` left it bound on
/// that segment's elements.
pub open spec fn bound_step<
    S,
    F: Fn(Segment<S>, UniverseTime) -> Option<UniverseTime>,
    G: Fn(Segment<S>, UniverseTime, usize) -> Aftermath<S>,
>(
    engulfment: F,
    explode: G,
    sudden: Seq<(UniverseTime, usize)>,
    last: UniverseTime,
    segments: Seq<Segment<S>>,
    n0: int,
    j: int,
) -> bool {
    &&& found_clear(
        engulfment,
        segments[n0 - 1 + j],
        stretch_end_of(next_death(sudden, j), last),
    )
    &&& segments[n0 + j].start == sudden[j].0
    &&& explode.ensures(
        (segments[n0 - 1 + j], sudden[j].0, sudden[j].1),
        Aftermath::Bound(segments[n0 + j].elements),
    )
}

/// Whether the body ends engulfed at `at`: at the time `engulfment` gave for the stretch of its
/// last segment, the `m`-th of the walk.
pub open spec fn ends_engulfed<S, F: Fn(Segment<S>, UniverseTime) -> Option<UniverseTime>>(
    engulfment: F,
    sudden: Seq<(UniverseTime, usize)>,
    last: UniverseTime,
    segments: Seq<Segment<S>>,
    m: int,
    at: UniverseTime,
) -> bool {
    stretch_end_of(next_death(sudden, m), last) matches Some(e) && exists|t: UniverseTime|
        t@ == e && #[trigger] engulfment.ensures((segments.last(), t), Some(at))
}

/// Whether the body ends unbound at `at`: at the `m`-th death, which `explode` said unbound it,
/// after `engulfment` found it clear through the stretch before.
pub open spec fn ends_unbound<
    S,
    F: Fn(Segment<S>, UniverseTime) -> Option<UniverseTime>,
    G: Fn(Segment<S>, UniverseTime, usize) -> Aftermath<S>,
>(
    engulfment: F,
    explode: G,
    sudden: Seq<(UniverseTime, usize)>,
    last: UniverseTime,
    segments: Seq<Segment<S>>,
    m: int,
    at: UniverseTime,
) -> bool {
    &&& 0 <= m < sudden.len()
    &&& at == sudden[m].0
    &&& found_clear(engulfment, segments.last(), stretch_end_of(next_death(sudden, m), last))
    &&& explode.ensures((segments.last(), sudden[m].0, sudden[m].1), Aftermath::Unbound)
}

/// Whether the body ends disrupted at `at`, no earlier than the `m`-th death, which `explode`
/// said disrupts it where it is, after `engulfment` found it clear through the stretch before.
pub open spec fn disrupted_at_death<
    S,
    F: Fn(Segment<S>, UniverseTime) -> Option<UniverseTime>,
    G: Fn(Segment<S>, UniverseTime, usize) -> Aftermath<S>,
>(
    engulfment: F,
    explode: G,
    sudden: Seq<(UniverseTime, usize)>,
    last: UniverseTime,
    segments: Seq<Segment<S>>,
    m: int,
    at: UniverseTime,
) -> bool {
    &&& 0 <= m < sudden.len()
    &&& sudden[m].0@ <= at@
    &&& found_clear(engulfment, segments.last(), stretch_end_of(next_death(sudden, m), last))
    &&& explode.ensures(
        (segments.last(), sudden[m].0, sudden[m].1),
        Aftermath::Disrupted { orbit: None, at },
    )
}

/// Whether the body ends disrupted at `at`, no earlier than the `m - 1`-th death, which
/// `explode` said puts it on the elements of its last segment until the disruption, after
/// `engulfment` found it clear through the stretch before.
pub open spec fn disrupted_after_plunge<
    S,
    F: Fn(Segment<S>, UniverseTime) -> Option<UniverseTime>,
    G: Fn(Segment<S>, UniverseTime, usize) -> Aftermath<S>,
>(
    engulfment: F,
    explode: G,
    sudden: Seq<(UniverseTime, usize)>,
    last: UniverseTime,
    segments: Seq<Segment<S>>,
    n0: int,
    m: int,
    at: UniverseTime,
) -> bool {
    &&& 1 <= m <= sudden.len()
    &&& sudden[m - 1].0@ <= at@
    &&& found_clear(
        engulfment,
        segments[n0 - 2 + m],
        stretch_end_of(next_death(sudden, m - 1), last),
    )
    &&& segments.last().start == sudden[m - 1].0
    &&& explode.ensures(
        (segments[n0 - 2 + m], sudden[m - 1].0, sudden[m - 1].1),
        Aftermath::Disrupted { orbit: Some(segments.last().elements), at },
    )
}

/// Whether each of the first `n` deaths of `sudden` took a step of the walk ([`bound_step`]).
pub open spec fn all_bound<
    S,
    F: Fn(Segment<S>, UniverseTime) -> Option<UniverseTime>,
    G: Fn(Segment<S>, UniverseTime, usize) -> Aftermath<S>,
>(
    engulfment: F,
    explode: G,
    sudden: Seq<(UniverseTime, usize)>,
    last: UniverseTime,
    segments: Seq<Segment<S>>,
    n0: int,
    n: int,
) -> bool {
    forall|j: int|
        0 <= j < n ==> #[trigger] bound_step(engulfment, explode, sudden, last, segments, n0, j)
}

/// Whether the body of `before`, formed and not ended, is walked to `after` through the deaths
/// `sudden`, the host's history being known until `last`: `after` keeps `before`'s segments and
/// adds one at each of the first `m` deaths, where `engulfment` found the body clear through the
/// stretch before and `explode` left it bound ([`bound_step`]); then either it lives on through
/// every death and the stretch to `last`, clear, or it ends in the stretch or at the death after
/// its last segment, engulfed, unbound or disrupted as the models said.
pub open spec fn walked<
    S,
    F: Fn(Segment<S>, UniverseTime) -> Option<UniverseTime>,
    G: Fn(Segment<S>, UniverseTime, usize) -> Aftermath<S>,
>(
    engulfment: F,
    explode: G,
    sudden: Seq<(UniverseTime, usize)>,
    last: UniverseTime,
    before: FateView<S>,
    after: FateView<S>,
) -> bool {
    let n0 = before.segments.len() as int;
    let m = after.segments.len() - n0;
    &&& after.window == before.window
    &&& after.formed_at == before.formed_at
    &&& 0 <= m <= sudden.len()
    &&& after.segments.subrange(0, n0) == before.segments
    &&& match after.ending {
        None => {
            &&& m == sudden.len()
            &&& all_bound(engulfment, explode, sudden, last, after.segments, n0, m)
            &&& found_clear(engulfment, after.segments.last(), Some(last@))
        },
        Some(e) => walked_to_end(engulfment, explode, sudden, last, after.segments, n0, m, e),
    }
}

/// Whether a walk that took the history to `segments`, `m` deaths past its first `n0`
/// segments, ends in `ending`, as [`walked`] says.
pub open spec fn walked_to_end<
    S,
    F: Fn(Segment<S>, UniverseTime) -> Option<UniverseTime>,
    G: Fn(Segment<S>, UniverseTime, usize) -> Aftermath<S>,
>(
    engulfment: F,
    explode: G,
    sudden: Seq<(UniverseTime, usize)>,
    last: UniverseTime,
    segments: Seq<Segment<S>>,
    n0: int,
    m: int,
    ending: BodyState,
) -> bool {
    let bound = all_bound(engulfment, explode, sudden, last, segments, n0, m);
    if ending is Unbound {
        bound && ends_unbound(engulfment, explode, sudden, last, segments, m, ending->Unbound_at)
    } else if ending is Destroyed && ending->cause == DestructionCause::Engulfed {
        bound && ends_engulfed(engulfment, sudden, last, segments, m, ending->Destroyed_at)
    } else if ending is Destroyed && ending->cause == DestructionCause::TidallyDisrupted {
        ||| bound && disrupted_at_death(
            engulfment,
            explode,
            sudden,
            last,
            segments,
            m,
            ending->Destroyed_at,
        )
        ||| all_bound(engulfment, explode, sudden, last, segments, n0, m - 1)
            && disrupted_after_plunge(
            engulfment,
            explode,
            sudden,
            last,
            segments,
            n0,
            m,
            ending->Destroyed_at,
        )
    } else {
        false
    }
}

/// The shape of a walk from `before`, formed and not ended, to `after` through the sudden
/// deaths `sudden`: `after` keeps `before`'s segments, and each one it adds starts at the next of
/// the deaths, no earlier than `before`'s last; it ends, if it does, unbound at one of the
/// deaths, engulfed no earlier than its last segment's start, or disrupted no earlier than the
/// death that caused it, itself no earlier than the last segment's start.
pub open spec fn walk_shape<S>(
    sudden: Seq<(UniverseTime, usize)>,
    before: FateView<S>,
    after: FateView<S>,
) -> bool {
    let n0 = before.segments.len() as int;
    &&& after.segments.len() >= n0
    &&& after.segments.subrange(0, n0) == before.segments
    &&& forall|i: int|
        n0 <= i < after.segments.len() ==> i - n0 < sudden.len() && #[trigger] after.segments[i].start
            == sudden[i - n0].0 && before.segments.last().start@ <= after.segments[i].start@
    &&& match after.ending {
        None => true,
        Some(BodyState::Unbound { at }) => exists|k: int|
            0 <= k < sudden.len() && #[trigger] sudden[k].0 == at && after.segments.last().start@
                <= at@,
        Some(BodyState::Destroyed { cause: DestructionCause::Engulfed, at }) => after.segments.last().start@
            <= at@,
        Some(BodyState::Destroyed { cause: DestructionCause::TidallyDisrupted, at }) => exists|k: int|
            0 <= k < sudden.len() && after.segments.last().start@ <= (#[trigger] sudden[k]).0@
                <= at@,
        Some(_) => false,
    }
}

/// Every walk ([`walked`]) has the shape [`walk_shape`] says, where the deaths come in order
/// from the start of the last segment before it, an engulfment comes no earlier than the start
/// of the segment it is asked about, and a disruption no earlier than its death.
pub proof fn lemma_walk_shape<
    S,
    F: Fn(Segment<S>, UniverseTime) -> Option<UniverseTime>,
    G: Fn(Segment<S>, UniverseTime, usize) -> Aftermath<S>,
>(
    engulfment: F,
    explode: G,
    sudden: Seq<(UniverseTime, usize)>,
    last: UniverseTime,
    before: FateView<S>,
    after: FateView<S>,
)
    requires
        walked(engulfment, explode, sudden, last, before, after),
        before.segments.len() >= 1,
        engulfs_in_stretch(engulfment),
        disrupts_after_death(explode),
        deaths_in_order(sudden, before.segments.last().start),
    ensures
        walk_shape(sudden, before, after),
{
    lemma_walk_event(engulfment, explode, sudden, last, before, after);
    let n0 = before.segments.len() as int;
    let b = bound_deaths(engulfment, explode, sudden, last, before, after);
    let len = after.segments.len() as int;
    assert forall|i: int| n0 <= i < len implies i - n0 < sudden.len() && #[trigger] after.segments[i].start
        == sudden[i - n0].0 && before.segments.last().start@ <= after.segments[i].start@ by {
        if i < n0 + b {
            assert(bound_step(engulfment, explode, sudden, last, after.segments, n0, i - n0));
        } else {
            assert(i == len - 1 && len == n0 + b + 1);
        }
        assert(sudden[0].0@ <= sudden[i - n0].0@);
    }
    let segment = after.segments[n0 - 1 + b];
    assert(after.segments.last() == after.segments[len - 1]);
    assert(segment.start@ <= after.segments.last().start@);
    if b < sudden.len() {
        if b == 0 {
            assert(segment == before.segments.last()) by {
                assert(after.segments.subrange(0, n0)[n0 - 1] == after.segments[n0 - 1]);
            }
        } else {
            assert(after.segments[n0 - 1 + b].start == sudden[b - 1].0);
            assert(sudden[b - 1].0@ <= sudden[b].0@);
        }
        assert(segment.start@ <= sudden[b].0@);
    }
    match after.ending {
        Some(BodyState::Destroyed { cause: DestructionCause::Engulfed, at }) => {
            let t = choose|t: UniverseTime|
                t@ == stretch_end_of(next_death(sudden, b), last).unwrap()
                    && #[trigger] engulfment.ensures((segment, t), Some(at));
            assert(engulfment.ensures((segment, t), Some(at)));
        },
        Some(BodyState::Unbound { at }) => {
            assert(sudden[b].0 == at);
        },
        Some(BodyState::Destroyed { cause: DestructionCause::TidallyDisrupted, at }) => {
            if len == n0 + b {
                assert(explode.ensures(
                    (segment, sudden[b].0, sudden[b].1),
                    Aftermath::Disrupted { orbit: None, at },
                ));
            } else {
                assert(explode.ensures(
                    (segment, sudden[b].0, sudden[b].1),
                    Aftermath::Disrupted { orbit: Some(after.segments.last().elements), at },
                ));
            }
            assert(after.segments.last().start@ <= sudden[b].0@ <= at@);
        },
        _ => {},
    }
}

impl<S: Copy> BodyFate<S> {
    /// Follows a formed body from its last segment through its host's sudden deaths, `sudden` in
    /// the order the history meets them, until it ends or the host's known history does at
    /// `last`.
    ///
    /// Before each death, and before `last` where none is left, `engulfment` gives the first
    /// time in the stretch from the segment's start to its end at which the body is engulfed, if
    /// any: the body is then destroyed. At each death, `explode` gives what the death leaves of
    /// the body on the segment it was on (see [`BodyFate::apply_aftermath`]). The stretch before
    /// a death ends a nanosecond before it ([`stretch_end`]). What the walk makes of the
    /// history is [`walked`]; its shape is [`walk_shape`].
    pub fn live<F, G>(
        &mut self,
        sudden: &Vec<(UniverseTime, usize)>,
        last: UniverseTime,
        engulfment: F,
        explode: G,
    )
        where
            F: Fn(Segment<S>, UniverseTime) -> Option<UniverseTime>,
            G: Fn(Segment<S>, UniverseTime, usize) -> Aftermath<S>,
        requires
            forall|segment: Segment<S>, end: UniverseTime| engulfment.requires((segment, end)),
            forall|segment: Segment<S>, at: UniverseTime, star: usize|
                explode.requires((segment, at, star)),
            engulfs_in_stretch(engulfment),
            disrupts_after_death(explode),
            old(self)@.formed_at is Some ==> deaths_in_order(
                sudden@,
                old(self)@.segments.last().start,
            ),
        ensures
            old(self)@.formed_at is None || old(self)@.ending is Some ==> final(self)@ == old(
                self,
            )@,
            old(self)@.formed_at is Some && old(self)@.ending is None ==> walked(
                engulfment,
                explode,
                sudden@,
                last,
                old(self)@,
                final(self)@,
            ),
            old(self)@.formed_at is Some && old(self)@.ending is None ==> walk_shape(
                sudden@,
                old(self)@,
                final(self)@,
            ),
    {
        proof {
            use_type_invariant(&*self);
        }
        let ghost before = self@;
        self.walk_deaths(sudden, last, engulfment, explode);
        proof {
            if before.formed_at is Some && before.ending is None {
                lemma_walk_shape(engulfment, explode, sudden@, last, before, self@);
            }
        }
    }

    /// The walk of [`BodyFate::live`].
    fn walk_deaths<F, G>(
        &mut self,
        sudden: &Vec<(UniverseTime, usize)>,
        last: UniverseTime,
        engulfment: F,
        explode: G,
    )
        where
            F: Fn(Segment<S>, UniverseTime) -> Option<UniverseTime>,
            G: Fn(Segment<S>, UniverseTime, usize) -> Aftermath<S>,
        requires
            forall|segment: Segment<S>, end: UniverseTime| engulfment.requires((segment, end)),
            forall|segment: Segment<S>, at: UniverseTime, star: usize|
                explode.requires((segment, at, star)),
            engulfs_in_stretch(engulfment),
            disrupts_after_death(explode),
            old(self)@.formed_at is Some ==> deaths_in_order(
                sudden@,
                old(self)@.segments.last().start,
            ),
        ensures
            old(self)@.formed_at is None || old(self)@.ending is Some ==> final(self)@ == old(
                self,
            )@,
            old(self)@.formed_at is Some && old(self)@.ending is None ==> walked(
                engulfment,
                explode,
                sudden@,
                last,
                old(self)@,
                final(self)@,
            ),
    {
        proof {
            use_type_invariant(&*self);
        }
        if self.formed_at.is_none() || self.ending.is_some() {
            return;
        }
        let ghost start = self@;
        let ghost n0 = start.segments.len() as int;
        let mut k: usize = 0;
        loop
            invariant
                0 <= k <= sudden.len(),
                start == old(self)@,
                n0 == start.segments.len(),
                n0 >= 1,
                forall|segment: Segment<S>, end: UniverseTime| engulfment.requires((segment, end)),
                forall|segment: Segment<S>, at: UniverseTime, star: usize|
                    explode.requires((segment, at, star)),
                engulfs_in_stretch(engulfment),
                disrupts_after_death(explode),
                deaths_in_order(sudden@, start.segments.last().start),
                self@.window == start.window,
                self@.formed_at == start.formed_at,
                start.formed_at is Some,
                start.ending is None,
                self@.ending is None,
                self@.segments.len() == n0 + k,
                self@.segments.subrange(0, n0) == start.segments,
                self@.segments.last().start == if k == 0 {
                    start.segments.last().start
                } else {
                    sudden[k - 1].0
                },
                forall|j: int|
                    0 <= j < k ==> #[trigger] bound_step(
                        engulfment,
                        explode,
                        sudden@,
                        last,
                        self@.segments,
                        n0,
                        j,
                    ),
            decreases sudden.len() - k,
        {
            proof {
                use_type_invariant(&*self);
            }
            let segment = self.last_segment().unwrap();
            let next = if k < sudden.len() {
                Some(sudden[k])
            } else {
                None
            };
            let next_at = match next {
                Some((at, _)) => Some(at),
                None => None,
            };
            let ghost stretch = stretch_end_of(next_death(sudden@, k as int), last);
            let stretch_ends = stretch_end(next_at, last);
            if let Some(end) = stretch_ends {
                let engulfed = engulfment(segment, end);
                if let Some(at) = engulfed {
                    let ghost before = self@;
                    let accepted = self.engulfed(at);
                    proof {
                        assert(segment.start@ <= at@);
                        assert(accepted);
                        assert(self@.segments == before.segments);
                        assert(engulfment.ensures((segment, end), Some(at)));
                        assert(ends_engulfed(engulfment, sudden@, last, self@.segments, k as int, at));
                        let ending = BodyState::Destroyed { cause: DestructionCause::Engulfed, at };
                        assert(walked_to_end(
                            engulfment,
                            explode,
                            sudden@,
                            last,
                            self@.segments,
                            n0,
                            k as int,
                            ending,
                        ));
                    }
                    return;
                }
                proof {
                    assert(engulfment.ensures((segment, end), None));
                }
            }
            proof {
                assert(found_clear(engulfment, segment, stretch));
            }
            let (at, star) = match next {
                Some(pair) => pair,
                None => {
                    return;
                },
            };
            let aftermath = explode(segment, at, star);
            proof {
                if let Aftermath::Disrupted { orbit, at: t } = aftermath {
                    assert(explode.ensures((segment, at, star), Aftermath::Disrupted { orbit, at: t }));
                }
                if k > 0 {
                    assert(sudden[k - 1].0@ <= sudden[k as int].0@);
                }
            }
            let ghost before = self@;
            let accepted = self.apply_aftermath(at, aftermath);
            assert(accepted);
            match aftermath {
                Aftermath::Bound(_) => {
                    proof {
                        assert(self@.segments == before.segments.push(self@.segments.last()));
                        assert(self@.segments.subrange(0, n0) =~= before.segments.subrange(0, n0));
                        assert forall|j: int|
                            0 <= j < k + 1 implies #[trigger] bound_step(
                            engulfment,
                            explode,
                            sudden@,
                            last,
                            self@.segments,
                            n0,
                            j,
                        ) by {
                            if j < k {
                                assert(bound_step(
                                    engulfment,
                                    explode,
                                    sudden@,
                                    last,
                                    before.segments,
                                    n0,
                                    j,
                                ));
                                assert(self@.segments[n0 - 1 + j] == before.segments[n0 - 1 + j]);
                                assert(self@.segments[n0 + j] == before.segments[n0 + j]);
                            } else {
                                assert(self@.segments[n0 - 1 + j] == segment);
                            }
                        }
                    }
                },
                Aftermath::Disrupted { orbit: Some(_), at: t } => {
                    proof {
                        assert(self@.segments == before.segments.push(self@.segments.last()));
                        assert(self@.segments.subrange(0, n0) =~= before.segments.subrange(0, n0));
                        assert(self@.segments[n0 - 2 + (k + 1)] == segment);
                        assert forall|j: int|
                            0 <= j < k implies #[trigger] bound_step(
                            engulfment,
                            explode,
                            sudden@,
                            last,
                            self@.segments,
                            n0,
                            j,
                        ) by {
                            assert(bound_step(
                                engulfment,
                                explode,
                                sudden@,
                                last,
                                before.segments,
                                n0,
                                j,
                            ));
                            assert(self@.segments[n0 - 1 + j] == before.segments[n0 - 1 + j]);
                            assert(self@.segments[n0 + j] == before.segments[n0 + j]);
                        }
                        assert(disrupted_after_plunge(
                            engulfment,
                            explode,
                            sudden@,
                            last,
                            self@.segments,
                            n0,
                            k + 1,
                            t,
                        ));
                    }
                    return;
                },
                Aftermath::Disrupted { orbit: None, at: t } => {
                    proof {
                        assert(self@.segments == before.segments);
                        assert(disrupted_at_death(
                            engulfment,
                            explode,
                            sudden@,
                            last,
                            self@.segments,
                            k as int,
                            t,
                        ));
                    }
                    return;
                },
                Aftermath::Unbound => {
                    proof {
                        assert(self@.segments == before.segments);
                        assert(ends_unbound(
                            engulfment,
                            explode,
                            sudden@,
                            last,
                            self@.segments,
                            k as int,
                            at,
                        ));
                    }
                    return;
                },
            }
            k = k + 1;
        }
    }
}

/// Whether a host has stars and every one of them dies by the end of the clock window.
pub open spec fn all_die(deaths: Seq<Option<StarDeath>>) -> bool {
    deaths.len() > 0 && forall|k: int| 0 <= k < deaths.len() ==> deaths[k] is Some
}

/// When a body whose formation age falls at the clock time `formation` (`None` beyond the clock)
/// forms, on a host whose stars die as `deaths` say: then, unless a star has died by then.
pub open spec fn formation_of(
    formation: Option<UniverseTime>,
    deaths: Seq<Option<StarDeath>>,
) -> Option<UniverseTime> {
    match formation {
        Some(c) => if forall|k: int|
            0 <= k < deaths.len() ==> (#[trigger] deaths[k] matches Some(d) ==> c@ < d.at@) {
            Some(c)
        } else {
            None
        },
        None => None,
    }
}

/// Whether `sudden` lists the sudden deaths among a host's stars `deaths` as (time, star) in the
/// order the history meets them: by time, then by star ([`sudden_deaths`]).
pub open spec fn lists_sudden_deaths(
    deaths: Seq<Option<StarDeath>>,
    sudden: Seq<(UniverseTime, usize)>,
) -> bool {
    &&& forall|i: int, j: int|
        0 <= i < j < sudden.len() ==> death_before(#[trigger] sudden[i], #[trigger] sudden[j])
    &&& forall|i: int|
        0 <= i < sudden.len() ==> dies_suddenly_at(deaths, #[trigger] sudden[i].1 as int, sudden[i].0)
    &&& forall|k: int, at: UniverseTime|
        #[trigger] dies_suddenly_at(deaths, k, at) ==> exists|i: int|
            0 <= i < sudden.len() && #[trigger] sudden[i] == (at, k as usize)
}

/// Whether a host whose stars die as `deaths` say is known until `until`: the latest of the
/// deaths where every star dies by the end of the clock window, `end`, and `end` otherwise
/// ([`known_until`]).
pub open spec fn known_until_is(
    deaths: Seq<Option<StarDeath>>,
    end: UniverseTime,
    until: UniverseTime,
) -> bool {
    if all_die(deaths) {
        &&& exists|k: int| 0 <= k < deaths.len() && deaths[k].unwrap().at == until
        &&& forall|k: int| 0 <= k < deaths.len() ==> (#[trigger] deaths[k]).unwrap().at@ <= until@
    } else {
        until == end
    }
}

/// The history of a body formed at `f` on `elements`, with nothing after yet.
pub open spec fn just_formed<S>(window: ClockWindow, f: UniverseTime, elements: S) -> FateView<S> {
    FateView {
        window,
        formed_at: Some(f),
        segments: seq![Segment { start: f, elements }],
        ending: None,
    }
}

/// Whether `h` is the history [`BodyFate::resolve`] gives of a body whose formation age falls at
/// `formation`, starting on `elements`, on a host whose stars die as `deaths` say, as
/// `engulfment` and `explode` answer: well formed over `window`; formed as [`formation_of`]
/// says; and then, where it forms no later than the host's known history ends, walked from its
/// formation through the host's sudden deaths to the end of that history ([`walked`]), and
/// otherwise just formed.
pub open spec fn resolves<
    S,
    F: Fn(Segment<S>, UniverseTime) -> Option<UniverseTime>,
    G: Fn(Segment<S>, UniverseTime, usize) -> Aftermath<S>,
>(
    h: FateView<S>,
    window: ClockWindow,
    formation: Option<UniverseTime>,
    deaths: Seq<Option<StarDeath>>,
    elements: S,
    engulfment: F,
    explode: G,
) -> bool {
    &&& h.wf()
    &&& h.window == window
    &&& h.formed_at == formation_of(formation, deaths)
    &&& h.formed_at matches Some(f) ==> exists|sudden: Seq<(UniverseTime, usize)>, last: UniverseTime|
        #![trigger lists_sudden_deaths(deaths, sudden), known_until_is(deaths, window.end, last)]
        {
            &&& lists_sudden_deaths(deaths, sudden)
            &&& known_until_is(deaths, window.end, last)
            &&& if f@ <= last@ {
                walked(engulfment, explode, sudden, last, just_formed(window, f, elements), h)
            } else {
                h == just_formed(window, f, elements)
            }
        }
}

/// The clock times of the deaths `deaths`, where there are.
pub open spec fn death_times(deaths: Seq<Option<StarDeath>>) -> Seq<Option<UniverseTime>> {
    deaths.map_values(|d: Option<StarDeath>| match d {
        Some(d) => Some(d.at),
        None => None,
    })
}

/// The clock times of the deaths `deaths`, where there are.
fn times_of(deaths: &Vec<Option<StarDeath>>) -> (times: Vec<Option<UniverseTime>>)
    ensures
        times@ == death_times(deaths@),
{
    let mut times: Vec<Option<UniverseTime>> = Vec::new();
    let mut k: usize = 0;
    while k < deaths.len()
        invariant
            0 <= k <= deaths.len(),
            times@ == death_times(deaths@.subrange(0, k as int)),
        decreases deaths.len() - k,
    {
        let t = match deaths[k] {
            Some(d) => Some(d.at),
            None => None,
        };
        times.push(t);
        k = k + 1;
        proof {
            assert(deaths@.subrange(0, k as int).drop_last() =~= deaths@.subrange(0, k - 1));
            assert(death_times(deaths@.subrange(0, k as int)) =~= death_times(
                deaths@.subrange(0, k - 1),
            ).push(t));
        }
    }
    proof {
        assert(deaths@.subrange(0, deaths.len() as int) =~= deaths@);
    }
    times
}

impl<S: Copy> BodyFate<S> {
    /// The history of a body whose formation age falls at the clock time `formation` (`None`
    /// beyond the clock), on a host whose stars die as `deaths` say, starting on `elements`.
    ///
    /// A body whose formation comes at or after one of its host stars' deaths never forms, since
    /// the death ends its disc ([`formation_time`]). A body that forms after the host's known
    /// history ([`known_until`] of the deaths and the window's end) has no history the models can
    /// tell yet. Any other is followed through the host's sudden deaths ([`sudden_deaths`]) by
    /// [`BodyFate::live`], with `engulfment` and `explode` as there.
    pub fn resolve<F, G>(
        window: ClockWindow,
        formation: Option<UniverseTime>,
        deaths: &Vec<Option<StarDeath>>,
        elements: S,
        engulfment: F,
        explode: G,
    ) -> (fate: Self)
        where
            F: Fn(Segment<S>, UniverseTime) -> Option<UniverseTime>,
            G: Fn(Segment<S>, UniverseTime, usize) -> Aftermath<S>,
        requires
            forall|segment: Segment<S>, end: UniverseTime| engulfment.requires((segment, end)),
            forall|segment: Segment<S>, at: UniverseTime, star: usize|
                explode.requires((segment, at, star)),
            engulfs_in_stretch(engulfment),
            disrupts_after_death(explode),
        ensures
            resolves(fate@, window, formation, deaths@, elements, engulfment, explode),
            answers_alike(engulfment) && explodes_alike(explode) ==> forall|h: FateView<S>|
                #[trigger] resolves(h, window, formation, deaths@, elements, engulfment, explode)
                    ==> h == fate@,
    {
        let times = times_of(deaths);
        let formed = formation_time(formation, &times);
        proof {
            assert forall|k: int| 0 <= k < deaths.len() implies #[trigger] times@[k] == match deaths@[k] {
                Some(d) => Some(d.at),
                None => None::<UniverseTime>,
            } by {
                assert(times@[k] == death_times(deaths@)[k]);
            }
            if let Some(c) = formation {
                if forall|k: int|
                    0 <= k < deaths.len() ==> (#[trigger] deaths[k] matches Some(d) ==> c@ < d.at@) {
                    assert forall|k: int|
                        0 <= k < times.len() implies (#[trigger] times[k] matches Some(d) ==> c@ < d@) by {
                        assert(deaths[k] matches Some(d) ==> c@ < d.at@);
                    }
                } else {
                    let k = choose|k: int|
                        0 <= k < deaths.len() && !(#[trigger] deaths[k] matches Some(d) ==> c@ < d.at@);
                    assert(!(times[k] matches Some(d) ==> c@ < d@));
                }
            }
        }
        let f = match formed {
            None => {
                let fate = BodyFate::never_formed(window);
                proof {
                    use_type_invariant(&fate);
                    assert(fate@.formed_at == formation_of(formation, deaths@));
                    the_history_is_fixed(fate@, window, formation, deaths@, elements, engulfment, explode);
                }
                return fate;
            },
            Some(f) => f,
        };
        let mut fate = BodyFate::formed(window, f, elements);
        let last = known_until(&times, window.end);
        let sudden = sudden_deaths(deaths);
        proof {
            assert(fate@.segments =~= just_formed(window, f, elements).segments);
            assert(fate@ == just_formed(window, f, elements));
            if all_die(deaths@) {
                assert forall|k: int| 0 <= k < times.len() implies times[k] is Some by {
                    assert(deaths[k] is Some);
                }
                let k = choose|k: int| 0 <= k < times.len() && times[k] == Some(last);
                assert(deaths[k].unwrap().at == last);
                assert forall|k: int| 0 <= k < deaths.len() implies (#[trigger] deaths[k]).unwrap().at@
                    <= last@ by {
                    assert(times[k] matches Some(d) && d@ <= last@);
                }
            } else {
                if deaths.len() > 0 {
                    let k = choose|k: int| 0 <= k < deaths.len() && !(deaths[k] is Some);
                    assert(times[k] is None);
                }
                assert(last == window.end);
            }
            assert(known_until_is(deaths@, window.end, last));
            assert(lists_sudden_deaths(deaths@, sudden@));
        }
        if f.is_at_or_before(&last) {
            let ghost formed_fate = fate@;
            proof {
                assert(deaths_in_order(sudden@, f)) by {
                    assert forall|i: int, j: int|
                        0 <= i <= j < sudden.len() implies sudden@[i].0@ <= sudden@[j].0@ by {
                        if i < j {
                            assert(death_before(sudden@[i], sudden@[j]));
                        }
                    }
                    if sudden.len() > 0 {
                        let k = sudden@[0].1 as int;
                        assert(dies_suddenly_at(deaths@, k, sudden@[0].0));
                        assert(deaths[k] matches Some(d) ==> f@ < d.at@);
                    }
                }
            }
            fate.live(&sudden, last, engulfment, explode);
            proof {
                assert(walked(engulfment, explode, sudden@, last, just_formed(window, f, elements), fate@));
            }
        }
        proof {
            use_type_invariant(&fate);
            assert(fate@.formed_at == Some(f));
            assert(fate@.wf());
            assert(fate@.window == window);
            assert(fate@.formed_at == formation_of(formation, deaths@));
            assert(lists_sudden_deaths(deaths@, sudden@) && known_until_is(deaths@, window.end, last)
                && if f@ <= last@ {
                walked(engulfment, explode, sudden@, last, just_formed(window, f, elements), fate@)
            } else {
                fate@ == just_formed(window, f, elements)
            });
            the_history_is_fixed(fate@, window, formation, deaths@, elements, engulfment, explode);
        }
        fate
    }
}

/// The state and orbit at `t` of a body whose formation age falls at the clock time `formation`,
/// starting on `elements`, on a host whose stars die as `deaths` say: [`BodyFate::resolve`],
/// with `engulfment` and `explode` as there, then [`BodyFate::at`].
pub fn state_at<S: Copy, F, G>(
    window: ClockWindow,
    formation: Option<UniverseTime>,
    deaths: &Vec<Option<StarDeath>>,
    elements: S,
    engulfment: F,
    explode: G,
    t: UniverseTime,
) -> (r: FateAt<S>)
    where
        F: Fn(Segment<S>, UniverseTime) -> Option<UniverseTime>,
        G: Fn(Segment<S>, UniverseTime, usize) -> Aftermath<S>,
    requires
        forall|segment: Segment<S>, end: UniverseTime| engulfment.requires((segment, end)),
        forall|segment: Segment<S>, at: UniverseTime, star: usize|
            explode.requires((segment, at, star)),
        engulfs_in_stretch(engulfment),
        disrupts_after_death(explode),
    ensures
        exists|h: FateView<S>|
            resolves(h, window, formation, deaths@, elements, engulfment, explode) && r@
                == h.fate_at(t),
        answers_alike(engulfment) && explodes_alike(explode) ==> forall|h: FateView<S>|
            #[trigger] resolves(h, window, formation, deaths@, elements, engulfment, explode) ==> r@
                == h.fate_at(t),
{
    let fate = BodyFate::resolve(window, formation, deaths, elements, engulfment, explode);
    let r = fate.at(t);
    assert(resolves(fate@, window, formation, deaths@, elements, engulfment, explode) && r@
        == fate@.fate_at(t));
    proof {
        if answers_alike(engulfment) && explodes_alike(explode) {
            assert forall|h: FateView<S>|
                #[trigger] resolves(h, window, formation, deaths@, elements, engulfment, explode)
                    implies r@ == h.fate_at(t) by {
                lemma_resolve_is_fixed_by_its_models(
                    fate@,
                    h,
                    window,
                    formation,
                    deaths@,
                    elements,
                    engulfment,
                    explode,
                );
            }
        }
    }
    r
}


/// Two lists of deaths, each in strict order of time then star, that hold the same deaths are
/// the same list.
proof fn lemma_sorted_deaths_unique(a: Seq<(UniverseTime, usize)>, b: Seq<(UniverseTime, usize)>)
    requires
        forall|i: int, j: int| 0 <= i < j < a.len() ==> death_before(#[trigger] a[i], #[trigger] a[j]),
        forall|i: int, j: int| 0 <= i < j < b.len() ==> death_before(#[trigger] b[i], #[trigger] b[j]),
        forall|x: (UniverseTime, usize)| a.contains(x) <==> b.contains(x),
    ensures
        a == b,
    decreases a.len(),
{
    if a.len() == 0 {
        if b.len() > 0 {
            assert(b.contains(b[0]));
        }
        assert(a =~= b);
    } else {
        assert(a.contains(a[0]));
        let j = choose|j: int| 0 <= j < b.len() && b[j] == a[0];
        assert(b.contains(b[0]));
        let i = choose|i: int| 0 <= i < a.len() && a[i] == b[0];
        if j > 0 {
            assert(death_before(b[0], b[j]));
            if i > 0 {
                assert(death_before(a[0], a[i]));
            }
            assert(false);
        }
        let (ra, rb) = (a.drop_first(), b.drop_first());
        assert forall|x: (UniverseTime, usize)| ra.contains(x) <==> rb.contains(x) by {
            if ra.contains(x) {
                let p = choose|p: int| 0 <= p < ra.len() && ra[p] == x;
                assert(a[p + 1] == x);
                assert(death_before(a[0], a[p + 1]));
                assert(a.contains(x));
                let q = choose|q: int| 0 <= q < b.len() && b[q] == x;
                if q == 0 {
                    assert(false);
                }
                assert(rb[q - 1] == x);
            }
            if rb.contains(x) {
                let p = choose|p: int| 0 <= p < rb.len() && rb[p] == x;
                assert(b[p + 1] == x);
                assert(death_before(b[0], b[p + 1]));
                assert(b.contains(x));
                let q = choose|q: int| 0 <= q < a.len() && a[q] == x;
                if q == 0 {
                    assert(false);
                }
                assert(ra[q - 1] == x);
            }
        }
        assert forall|i: int, j: int| 0 <= i < j < ra.len() implies death_before(
            #[trigger] ra[i],
            #[trigger] ra[j],
        ) by {
            assert(death_before(a[i + 1], a[j + 1]));
        }
        assert forall|i: int, j: int| 0 <= i < j < rb.len() implies death_before(
            #[trigger] rb[i],
            #[trigger] rb[j],
        ) by {
            assert(death_before(b[i + 1], b[j + 1]));
        }
        lemma_sorted_deaths_unique(ra, rb);
        assert(a =~= seq![a[0]] + ra);
        assert(b =~= seq![b[0]] + rb);
    }
}

/// There is one list of a host's sudden deaths in the order the history meets them.
proof fn lemma_sudden_deaths_unique(
    deaths: Seq<Option<StarDeath>>,
    a: Seq<(UniverseTime, usize)>,
    b: Seq<(UniverseTime, usize)>,
)
    requires
        lists_sudden_deaths(deaths, a),
        lists_sudden_deaths(deaths, b),
    ensures
        a == b,
{
    assert forall|x: (UniverseTime, usize)| a.contains(x) <==> b.contains(x) by {
        if a.contains(x) {
            let i = choose|i: int| 0 <= i < a.len() && a[i] == x;
            assert(dies_suddenly_at(deaths, a[i].1 as int, a[i].0));
            let j = choose|j: int| 0 <= j < b.len() && #[trigger] b[j] == (a[i].0, a[i].1 as int as usize);
            assert(b[j] == x);
        }
        if b.contains(x) {
            let i = choose|i: int| 0 <= i < b.len() && b[i] == x;
            assert(dies_suddenly_at(deaths, b[i].1 as int, b[i].0));
            let j = choose|j: int| 0 <= j < a.len() && #[trigger] a[j] == (b[i].0, b[i].1 as int as usize);
            assert(a[j] == x);
        }
    }
    lemma_sorted_deaths_unique(a, b);
}


/// Whether `engulfment` answers alike for a segment and two times of the same instant: a
/// function of its arguments, as the model that stands behind it is.
pub open spec fn answers_alike<S, F: Fn(Segment<S>, UniverseTime) -> Option<UniverseTime>>(
    engulfment: F,
) -> bool {
    forall|segment: Segment<S>, t1: UniverseTime, t2: UniverseTime, r1: Option<UniverseTime>, r2: Option<UniverseTime>|
        #![trigger engulfment.ensures((segment, t1), r1), engulfment.ensures((segment, t2), r2)]
        t1@ == t2@ && engulfment.ensures((segment, t1), r1) && engulfment.ensures((segment, t2), r2)
            ==> r1 == r2
}

/// Whether `explode` answers alike for the same arguments: a function of them, as the model
/// that stands behind it is.
pub open spec fn explodes_alike<S, G: Fn(Segment<S>, UniverseTime, usize) -> Aftermath<S>>(
    explode: G,
) -> bool {
    forall|segment: Segment<S>, death: UniverseTime, star: usize, a1: Aftermath<S>, a2: Aftermath<S>|
        #![trigger explode.ensures((segment, death, star), a1), explode.ensures((segment, death, star), a2)]
        explode.ensures((segment, death, star), a1) && explode.ensures((segment, death, star), a2)
            ==> a1 == a2
}

/// The number of deaths at which a walk from `before` to `h` ([`walked`]) left the body bound.
pub open spec fn bound_deaths<
    S,
    F: Fn(Segment<S>, UniverseTime) -> Option<UniverseTime>,
    G: Fn(Segment<S>, UniverseTime, usize) -> Aftermath<S>,
>(
    engulfment: F,
    explode: G,
    sudden: Seq<(UniverseTime, usize)>,
    last: UniverseTime,
    before: FateView<S>,
    h: FateView<S>,
) -> int {
    let n0 = before.segments.len() as int;
    let m = h.segments.len() - n0;
    match h.ending {
        None => m,
        Some(e) => if e is Destroyed && e->cause == DestructionCause::TidallyDisrupted && !(
        all_bound(engulfment, explode, sudden, last, h.segments, n0, m) && disrupted_at_death(
            engulfment,
            explode,
            sudden,
            last,
            h.segments,
            m,
            e->Destroyed_at,
        )) {
            m - 1
        } else {
            m
        },
    }
}

/// What ends a walk ([`walked`]): the number `b` of deaths at which the body was left bound
/// ([`bound_deaths`]), and what the models said of the stretch after its segment `n0 - 1 + b`
/// and of the death ending it.
proof fn lemma_walk_event<
    S,
    F: Fn(Segment<S>, UniverseTime) -> Option<UniverseTime>,
    G: Fn(Segment<S>, UniverseTime, usize) -> Aftermath<S>,
>(
    engulfment: F,
    explode: G,
    sudden: Seq<(UniverseTime, usize)>,
    last: UniverseTime,
    before: FateView<S>,
    h: FateView<S>,
)
    requires
        walked(engulfment, explode, sudden, last, before, h),
        before.segments.len() >= 1,
    ensures
        ({
            let n0 = before.segments.len() as int;
            let b = bound_deaths(engulfment, explode, sudden, last, before, h);
            let segment = h.segments[n0 - 1 + b];
            let stretch = stretch_end_of(next_death(sudden, b), last);
            &&& 0 <= b <= sudden.len()
            &&& all_bound(engulfment, explode, sudden, last, h.segments, n0, b)
            &&& h.segments.len() >= n0 + b
            &&& h.ending matches Some(BodyState::Destroyed { cause: DestructionCause::Engulfed, at })
                ==> h.segments.len() == n0 + b && stretch is Some && exists|t: UniverseTime|
                t@ == stretch.unwrap() && #[trigger] engulfment.ensures((segment, t), Some(at))
            &&& !(h.ending matches Some(BodyState::Destroyed { cause: DestructionCause::Engulfed, .. }))
                ==> found_clear(engulfment, segment, stretch)
            &&& h.ending is None ==> b == sudden.len() && h.segments.len() == n0 + b
            &&& h.ending matches Some(BodyState::Unbound { at }) ==> b < sudden.len() && at
                == sudden[b].0 && h.segments.len() == n0 + b && explode.ensures(
                (segment, sudden[b].0, sudden[b].1),
                Aftermath::Unbound,
            )
            &&& h.ending matches Some(BodyState::Destroyed { cause: DestructionCause::TidallyDisrupted, at })
                ==> b < sudden.len() && ((h.segments.len() == n0 + b && explode.ensures(
                (segment, sudden[b].0, sudden[b].1),
                Aftermath::Disrupted { orbit: None, at },
            )) || (h.segments.len() == n0 + b + 1 && h.segments.last().start == sudden[b].0
                && explode.ensures(
                (segment, sudden[b].0, sudden[b].1),
                Aftermath::Disrupted { orbit: Some(h.segments.last().elements), at },
            )))
            &&& h.ending matches Some(e) ==> (e is Unbound || e matches BodyState::Destroyed {
                cause: DestructionCause::Engulfed,
                ..
            } || e matches BodyState::Destroyed {
                cause: DestructionCause::TidallyDisrupted,
                ..
            })
        }),
{
    let n0 = before.segments.len() as int;
    let m = h.segments.len() - n0;
    assert(h.segments.last() == h.segments[n0 - 1 + m]);
    if m >= 1 {
        assert(h.segments[n0 - 2 + m] == h.segments[n0 - 1 + (m - 1)]);
    }
}


/// Walks that agree on the deaths they were left bound at agree on those segments.
proof fn lemma_bound_segments_agree<
    S,
    F: Fn(Segment<S>, UniverseTime) -> Option<UniverseTime>,
    G: Fn(Segment<S>, UniverseTime, usize) -> Aftermath<S>,
>(
    engulfment: F,
    explode: G,
    sudden: Seq<(UniverseTime, usize)>,
    last1: UniverseTime,
    last2: UniverseTime,
    segments1: Seq<Segment<S>>,
    segments2: Seq<Segment<S>>,
    n0: int,
    j: int,
)
    requires
        explodes_alike(explode),
        last1@ == last2@,
        n0 >= 1,
        0 <= j <= sudden.len(),
        segments1.len() >= n0 + j,
        segments2.len() >= n0 + j,
        segments1.subrange(0, n0) == segments2.subrange(0, n0),
        all_bound(engulfment, explode, sudden, last1, segments1, n0, j),
        all_bound(engulfment, explode, sudden, last2, segments2, n0, j),
    ensures
        forall|i: int| 0 <= i < n0 + j ==> segments1[i] == segments2[i],
    decreases j,
{
    if j == 0 {
        assert forall|i: int| 0 <= i < n0 implies segments1[i] == segments2[i] by {
            assert(segments1[i] == segments1.subrange(0, n0)[i]);
            assert(segments2[i] == segments2.subrange(0, n0)[i]);
        }
    } else {
        assert(bound_step(engulfment, explode, sudden, last1, segments1, n0, j - 1));
        assert(bound_step(engulfment, explode, sudden, last2, segments2, n0, j - 1));
        lemma_bound_segments_agree(
            engulfment,
            explode,
            sudden,
            last1,
            last2,
            segments1,
            segments2,
            n0,
            j - 1,
        );
        let previous = segments1[n0 - 2 + j];
        assert(previous == segments2[n0 - 2 + j]);
        assert(explode.ensures(
            (previous, sudden[j - 1].0, sudden[j - 1].1),
            Aftermath::Bound(segments1[n0 - 1 + j].elements),
        ));
        assert(explode.ensures(
            (previous, sudden[j - 1].0, sudden[j - 1].1),
            Aftermath::Bound(segments2[n0 - 1 + j].elements),
        ));
    }
}

/// A walk ends no earlier than another of the same body through the same deaths, as models
/// that answer alike tell them.
proof fn lemma_walk_not_shorter<
    S,
    F: Fn(Segment<S>, UniverseTime) -> Option<UniverseTime>,
    G: Fn(Segment<S>, UniverseTime, usize) -> Aftermath<S>,
>(
    engulfment: F,
    explode: G,
    sudden: Seq<(UniverseTime, usize)>,
    last1: UniverseTime,
    last2: UniverseTime,
    before: FateView<S>,
    h1: FateView<S>,
    h2: FateView<S>,
)
    requires
        answers_alike(engulfment),
        explodes_alike(explode),
        last1@ == last2@,
        before.segments.len() >= 1,
        walked(engulfment, explode, sudden, last1, before, h1),
        walked(engulfment, explode, sudden, last2, before, h2),
    ensures
        bound_deaths(engulfment, explode, sudden, last1, before, h1) >= bound_deaths(
            engulfment,
            explode,
            sudden,
            last2,
            before,
            h2,
        ),
{
    let n0 = before.segments.len() as int;
    lemma_walk_event(engulfment, explode, sudden, last1, before, h1);
    lemma_walk_event(engulfment, explode, sudden, last2, before, h2);
    let b1 = bound_deaths(engulfment, explode, sudden, last1, before, h1);
    let b2 = bound_deaths(engulfment, explode, sudden, last2, before, h2);
    if b1 < b2 {
        assert(h1.segments.subrange(0, n0) == h2.segments.subrange(0, n0));
        assert forall|j: int| 0 <= j < b1 implies #[trigger] bound_step(
            engulfment,
            explode,
            sudden,
            last2,
            h2.segments,
            n0,
            j,
        ) by {
            assert(bound_step(engulfment, explode, sudden, last2, h2.segments, n0, j));
        }
        lemma_bound_segments_agree(
            engulfment,
            explode,
            sudden,
            last1,
            last2,
            h1.segments,
            h2.segments,
            n0,
            b1,
        );
        let segment = h1.segments[n0 - 1 + b1];
        assert(segment == h2.segments[n0 - 1 + b1]);
        assert(bound_step(engulfment, explode, sudden, last2, h2.segments, n0, b1));
        let stretch = stretch_end_of(next_death(sudden, b1), last1);
        assert(stretch == stretch_end_of(next_death(sudden, b1), last2));
        assert(explode.ensures(
            (segment, sudden[b1].0, sudden[b1].1),
            Aftermath::Bound(h2.segments[n0 + b1].elements),
        ));
        match h1.ending {
            Some(BodyState::Destroyed { cause: DestructionCause::Engulfed, at }) => {
                let t = choose|t: UniverseTime|
                    t@ == stretch.unwrap() && #[trigger] engulfment.ensures((segment, t), Some(at));
                let u = choose|u: UniverseTime|
                    u@ == stretch.unwrap() && #[trigger] engulfment.ensures((segment, u), None);
                assert(engulfment.ensures((segment, t), Some(at)) && engulfment.ensures(
                    (segment, u),
                    None,
                ));
            },
            Some(BodyState::Unbound { at }) => {
                assert(explode.ensures((segment, sudden[b1].0, sudden[b1].1), Aftermath::Unbound));
            },
            Some(BodyState::Destroyed { cause: DestructionCause::TidallyDisrupted, at }) => {
                if h1.segments.len() == n0 + b1 && explode.ensures(
                    (segment, sudden[b1].0, sudden[b1].1),
                    Aftermath::Disrupted { orbit: None, at },
                ) {
                } else {
                    assert(explode.ensures(
                        (segment, sudden[b1].0, sudden[b1].1),
                        Aftermath::Disrupted { orbit: Some(h1.segments.last().elements), at },
                    ));
                }
            },
            _ => {},
        }
    }
}

/// Two walks of the same body through the same deaths, as models that answer alike tell them,
/// give the same history.
proof fn lemma_walk_unique<
    S,
    F: Fn(Segment<S>, UniverseTime) -> Option<UniverseTime>,
    G: Fn(Segment<S>, UniverseTime, usize) -> Aftermath<S>,
>(
    engulfment: F,
    explode: G,
    sudden: Seq<(UniverseTime, usize)>,
    last1: UniverseTime,
    last2: UniverseTime,
    before: FateView<S>,
    h1: FateView<S>,
    h2: FateView<S>,
)
    requires
        answers_alike(engulfment),
        explodes_alike(explode),
        last1@ == last2@,
        before.segments.len() >= 1,
        walked(engulfment, explode, sudden, last1, before, h1),
        walked(engulfment, explode, sudden, last2, before, h2),
    ensures
        h1 == h2,
{
    let n0 = before.segments.len() as int;
    lemma_walk_not_shorter(engulfment, explode, sudden, last1, last2, before, h1, h2);
    lemma_walk_not_shorter(engulfment, explode, sudden, last2, last1, before, h2, h1);
    lemma_walk_event(engulfment, explode, sudden, last1, before, h1);
    lemma_walk_event(engulfment, explode, sudden, last2, before, h2);
    let b = bound_deaths(engulfment, explode, sudden, last1, before, h1);
    assert(h1.segments.subrange(0, n0) == h2.segments.subrange(0, n0));
    lemma_bound_segments_agree(
        engulfment,
        explode,
        sudden,
        last1,
        last2,
        h1.segments,
        h2.segments,
        n0,
        b,
    );
    let segment = h1.segments[n0 - 1 + b];
    assert(segment == h2.segments[n0 - 1 + b]);
    let stretch = stretch_end_of(next_death(sudden, b), last1);
    assert(stretch == stretch_end_of(next_death(sudden, b), last2));
    let engulfed1 = h1.ending matches Some(
        BodyState::Destroyed { cause: DestructionCause::Engulfed, .. },
    );
    let engulfed2 = h2.ending matches Some(
        BodyState::Destroyed { cause: DestructionCause::Engulfed, .. },
    );
    if engulfed1 != engulfed2 {
        let (e, c) = if engulfed1 {
            (h1.ending.unwrap(), h2)
        } else {
            (h2.ending.unwrap(), h1)
        };
        let t = choose|t: UniverseTime|
            t@ == stretch.unwrap() && #[trigger] engulfment.ensures(
                (segment, t),
                Some(e->Destroyed_at),
            );
        let u = choose|u: UniverseTime|
            u@ == stretch.unwrap() && #[trigger] engulfment.ensures((segment, u), None);
        assert(engulfment.ensures((segment, t), Some(e->Destroyed_at)) && engulfment.ensures(
            (segment, u),
            None,
        ));
        assert(false);
    }
    if engulfed1 {
        let (a1, a2) = (h1.ending.unwrap()->Destroyed_at, h2.ending.unwrap()->Destroyed_at);
        let t = choose|t: UniverseTime|
            t@ == stretch.unwrap() && #[trigger] engulfment.ensures((segment, t), Some(a1));
        let u = choose|u: UniverseTime|
            u@ == stretch.unwrap() && #[trigger] engulfment.ensures((segment, u), Some(a2));
        assert(engulfment.ensures((segment, t), Some(a1)) && engulfment.ensures(
            (segment, u),
            Some(a2),
        ));
        assert(h1.ending == h2.ending);
    } else if h1.ending is Some && h2.ending is Some {
        let (e1, e2) = (h1.ending.unwrap(), h2.ending.unwrap());
        let death = (segment, sudden[b].0, sudden[b].1);
        if e1 is Unbound {
            assert(explode.ensures(death, Aftermath::Unbound));
        }
        if e2 is Unbound {
            assert(explode.ensures(death, Aftermath::Unbound));
        }
        if e1 is Destroyed && e2 is Destroyed {
            assert(h1.segments.len() == n0 + b ==> explode.ensures(
                death,
                Aftermath::Disrupted { orbit: None, at: e1->Destroyed_at },
            ));
        }
        assert(h1.ending == h2.ending && h1.segments.len() == h2.segments.len());
        if h1.segments.len() == n0 + b + 1 {
            assert(h1.segments.last() == h1.segments[n0 + b]);
            assert(h2.segments.last() == h2.segments[n0 + b]);
        }
    }
    assert(h1.ending == h2.ending);
    assert(h1.segments.len() == h2.segments.len());
    assert(h1.segments =~= h2.segments);
}

/// Where the models answer alike, a history [`resolves`] allows is the only one.
proof fn the_history_is_fixed<
    S,
    F: Fn(Segment<S>, UniverseTime) -> Option<UniverseTime>,
    G: Fn(Segment<S>, UniverseTime, usize) -> Aftermath<S>,
>(
    fate: FateView<S>,
    window: ClockWindow,
    formation: Option<UniverseTime>,
    deaths: Seq<Option<StarDeath>>,
    elements: S,
    engulfment: F,
    explode: G,
)
    requires
        resolves(fate, window, formation, deaths, elements, engulfment, explode),
    ensures
        answers_alike(engulfment) && explodes_alike(explode) ==> forall|h: FateView<S>|
            #[trigger] resolves(h, window, formation, deaths, elements, engulfment, explode) ==> h
                == fate,
{
    if answers_alike(engulfment) && explodes_alike(explode) {
        assert forall|h: FateView<S>|
            #[trigger] resolves(h, window, formation, deaths, elements, engulfment, explode)
                implies h == fate by {
            lemma_resolve_is_fixed_by_its_models(
                h,
                fate,
                window,
                formation,
                deaths,
                elements,
                engulfment,
                explode,
            );
        }
    }
}

/// The history [`BodyFate::resolve`] gives is fixed by what it is given: where `engulfment`
/// and `explode` answer alike for the same questions, as the models behind them do, any two
/// histories that [`resolves`] allows of one body, host and pair of models are the same. So a
/// body resolved twice has one history, and its state at any time reads the same through
/// [`state_at`] as through [`BodyFate::at`] on the resolved history, whatever the order of the
/// questions.
pub proof fn lemma_resolve_is_fixed_by_its_models<
    S,
    F: Fn(Segment<S>, UniverseTime) -> Option<UniverseTime>,
    G: Fn(Segment<S>, UniverseTime, usize) -> Aftermath<S>,
>(
    h1: FateView<S>,
    h2: FateView<S>,
    window: ClockWindow,
    formation: Option<UniverseTime>,
    deaths: Seq<Option<StarDeath>>,
    elements: S,
    engulfment: F,
    explode: G,
)
    requires
        answers_alike(engulfment),
        explodes_alike(explode),
        resolves(h1, window, formation, deaths, elements, engulfment, explode),
        resolves(h2, window, formation, deaths, elements, engulfment, explode),
    ensures
        h1 == h2,
{
    match h1.formed_at {
        None => {
            assert(h1.segments =~= h2.segments);
        },
        Some(f) => {
            let (s1, l1) = choose|sudden: Seq<(UniverseTime, usize)>, last: UniverseTime|
                #![trigger lists_sudden_deaths(deaths, sudden), known_until_is(deaths, window.end, last)]
                {
                    &&& lists_sudden_deaths(deaths, sudden)
                    &&& known_until_is(deaths, window.end, last)
                    &&& if f@ <= last@ {
                        walked(engulfment, explode, sudden, last, just_formed(window, f, elements), h1)
                    } else {
                        h1 == just_formed(window, f, elements)
                    }
                };
            let (s2, l2) = choose|sudden: Seq<(UniverseTime, usize)>, last: UniverseTime|
                #![trigger lists_sudden_deaths(deaths, sudden), known_until_is(deaths, window.end, last)]
                {
                    &&& lists_sudden_deaths(deaths, sudden)
                    &&& known_until_is(deaths, window.end, last)
                    &&& if f@ <= last@ {
                        walked(engulfment, explode, sudden, last, just_formed(window, f, elements), h2)
                    } else {
                        h2 == just_formed(window, f, elements)
                    }
                };
            lemma_sudden_deaths_unique(deaths, s1, s2);
            if all_die(deaths) {
                let k1 = choose|k: int| 0 <= k < deaths.len() && deaths[k].unwrap().at == l1;
                let k2 = choose|k: int| 0 <= k < deaths.len() && deaths[k].unwrap().at == l2;
                assert(deaths[k1].unwrap().at@ <= l2@);
                assert(deaths[k2].unwrap().at@ <= l1@);
            }
            assert(l1@ == l2@);
            if f@ <= l1@ {
                lemma_walk_unique(
                    engulfment,
                    explode,
                    s1,
                    l1,
                    l2,
                    just_formed(window, f, elements),
                    h1,
                    h2,
                );
            }
        },
    }
}

/// Two times that [`known_until_is`] allows for one host are the same instant.
proof fn lemma_known_until_one_instant(
    deaths: Seq<Option<StarDeath>>,
    end: UniverseTime,
    l1: UniverseTime,
    l2: UniverseTime,
)
    requires
        known_until_is(deaths, end, l1),
        known_until_is(deaths, end, l2),
    ensures
        l1@ == l2@,
{
    if all_die(deaths) {
        let k1 = choose|k: int| 0 <= k < deaths.len() && deaths[k].unwrap().at == l1;
        let k2 = choose|k: int| 0 <= k < deaths.len() && deaths[k].unwrap().at == l2;
        assert(deaths[k1].unwrap().at@ <= l2@);
        assert(deaths[k2].unwrap().at@ <= l1@);
    }
}

/// A resolved body that is still there when its host's known history ends, at `last` (the last
/// death where every star dies in the window, the window's end otherwise), was asked of the
/// engulfment model over the stretch of its last segment to that very instant, and found clear.
pub proof fn lemma_a_survivor_was_found_clear_to_the_known_end<
    S,
    F: Fn(Segment<S>, UniverseTime) -> Option<UniverseTime>,
    G: Fn(Segment<S>, UniverseTime, usize) -> Aftermath<S>,
>(
    h: FateView<S>,
    window: ClockWindow,
    formation: Option<UniverseTime>,
    deaths: Seq<Option<StarDeath>>,
    elements: S,
    engulfment: F,
    explode: G,
    last: UniverseTime,
)
    requires
        resolves(h, window, formation, deaths, elements, engulfment, explode),
        known_until_is(deaths, window.end, last),
        h.formed_at matches Some(f) && f@ <= last@,
        h.ending is None,
    ensures
        exists|t: UniverseTime| t@ == last@ && #[trigger] engulfment.ensures((h.segments.last(), t), None),
{
    let f = h.formed_at.unwrap();
    let (s, l) = choose|sudden: Seq<(UniverseTime, usize)>, l: UniverseTime|
        #![trigger lists_sudden_deaths(deaths, sudden), known_until_is(deaths, window.end, l)]
        {
            &&& lists_sudden_deaths(deaths, sudden)
            &&& known_until_is(deaths, window.end, l)
            &&& if f@ <= l@ {
                walked(engulfment, explode, sudden, l, just_formed(window, f, elements), h)
            } else {
                h == just_formed(window, f, elements)
            }
        };
    lemma_known_until_one_instant(deaths, window.end, l, last);
    assert(found_clear(engulfment, h.segments.last(), Some(l@)));
}

/// A resolved body on a host with no sudden death is engulfed where the engulfment model, asked
/// over the stretch from its formation to the end of its host's known history, `last`, finds it
/// engulfed: it ends there, destroyed, on its one segment. (The models answer alike, as the
/// model behind `engulfment` does.)
pub proof fn lemma_engulfed_in_the_last_stretch<
    S,
    F: Fn(Segment<S>, UniverseTime) -> Option<UniverseTime>,
    G: Fn(Segment<S>, UniverseTime, usize) -> Aftermath<S>,
>(
    h: FateView<S>,
    window: ClockWindow,
    formation: Option<UniverseTime>,
    deaths: Seq<Option<StarDeath>>,
    elements: S,
    engulfment: F,
    explode: G,
    last: UniverseTime,
    t: UniverseTime,
    at: UniverseTime,
)
    requires
        resolves(h, window, formation, deaths, elements, engulfment, explode),
        answers_alike(engulfment),
        known_until_is(deaths, window.end, last),
        forall|k: int, d: UniverseTime| !#[trigger] dies_suddenly_at(deaths, k, d),
        formation_of(formation, deaths) matches Some(f) && f@ <= last@ && engulfment.ensures(
            (Segment { start: f, elements }, t),
            Some(at),
        ),
        t@ == last@,
    ensures
        h.ending == Some(BodyState::Destroyed { cause: DestructionCause::Engulfed, at }),
        h.segments == seq![Segment { start: h.formed_at.unwrap(), elements }],
{
    let f = h.formed_at.unwrap();
    let segment = Segment { start: f, elements };
    let (s, l) = choose|sudden: Seq<(UniverseTime, usize)>, l: UniverseTime|
        #![trigger lists_sudden_deaths(deaths, sudden), known_until_is(deaths, window.end, l)]
        {
            &&& lists_sudden_deaths(deaths, sudden)
            &&& known_until_is(deaths, window.end, l)
            &&& if f@ <= l@ {
                walked(engulfment, explode, sudden, l, just_formed(window, f, elements), h)
            } else {
                h == just_formed(window, f, elements)
            }
        };
    lemma_known_until_one_instant(deaths, window.end, l, last);
    if s.len() > 0 {
        assert(dies_suddenly_at(deaths, s[0].1 as int, s[0].0));
        assert(false);
    }
    let before = just_formed(window, f, elements);
    assert(h.segments.subrange(0, 1) == before.segments);
    assert(h.segments.len() == 1);
    assert(h.segments =~= before.segments);
    assert(h.segments.last() == segment);
    assert(stretch_end_of(next_death(s, 0), l) == Some(l@));
    match h.ending {
        None => {
            let u = choose|u: UniverseTime| u@ == l@ && #[trigger] engulfment.ensures((segment, u), None);
            assert(engulfment.ensures((segment, t), Some(at)) && engulfment.ensures((segment, u), None));
        },
        Some(e) => {
            assert(walked_to_end(engulfment, explode, s, l, h.segments, 1, 0, e));
            if e is Destroyed && e->cause == DestructionCause::Engulfed {
                let a2 = e->Destroyed_at;
                let u = choose|u: UniverseTime|
                    u@ == l@ && #[trigger] engulfment.ensures((h.segments.last(), u), Some(a2));
                assert(engulfment.ensures((segment, t), Some(at)) && engulfment.ensures(
                    (segment, u),
                    Some(a2),
                ));
            }
        },
    }
}

/// A body forms at its formation age's clock time exactly when every host star that dies does
/// so strictly after it; one whose formation comes at or after a death, or beyond the clock,
/// never forms.
pub proof fn lemma_formation_comes_before_every_death(
    formation: Option<UniverseTime>,
    deaths: Seq<Option<StarDeath>>,
)
    ensures
        formation is None ==> formation_of(formation, deaths) is None,
        formation matches Some(c) ==> (formation_of(formation, deaths) == Some(c) <==> forall|k: int|
            0 <= k < deaths.len() && #[trigger] deaths[k] is Some ==> c@ < deaths[k].unwrap().at@),
        formation matches Some(c) ==> (formation_of(formation, deaths) is None <==> exists|k: int|
            0 <= k < deaths.len() && #[trigger] deaths[k] is Some && deaths[k].unwrap().at@ <= c@),
{
    if let Some(c) = formation {
        if forall|k: int|
            0 <= k < deaths.len() ==> (#[trigger] deaths[k] matches Some(d) ==> c@ < d.at@) {
            assert forall|k: int|
                0 <= k < deaths.len() && #[trigger] deaths[k] is Some implies c@
                    < deaths[k].unwrap().at@ by {
                assert(deaths[k] matches Some(d) ==> c@ < d.at@);
            }
        } else {
            let k = choose|k: int|
                0 <= k < deaths.len() && !(#[trigger] deaths[k] matches Some(d) ==> c@ < d.at@);
            assert(deaths[k] is Some && deaths[k].unwrap().at@ <= c@);
        }
    }
}

/// Sudden deaths are met in order of time, then of the star's position: a death comes before
/// another exactly when it is earlier, or at the same instant of a star earlier in the host.
pub proof fn lemma_deaths_are_met_by_time_then_star(a: (UniverseTime, usize), b: (UniverseTime, usize))
    ensures
        death_before(a, b) <==> (a.0@ < b.0@ || (a.0@ == b.0@ && a.1 < b.1)),
        !(death_before(a, b) && death_before(b, a)),
{
}

/// The stretch before a sudden death ends the nanosecond before it, and the last stretch at the
/// end of the host's known history.
pub proof fn lemma_stretches_end_before_the_next_death(
    next: Option<(UniverseTime, usize)>,
    last: UniverseTime,
)
    ensures
        next is None ==> stretch_end_of(next, last) == Some(last@),
        next is Some && crate::time::on_clock(next.unwrap().0@ - 1) ==> stretch_end_of(next, last)
            == Some(next.unwrap().0@ - 1),
        next is Some && !crate::time::on_clock(next.unwrap().0@ - 1) ==> stretch_end_of(next, last)
            is None,
{
}

/// The host's known history ends at its last death where every star dies in the window, no
/// earlier and no later than every death; and at the window's end where a star lives on or there
/// are none.
pub proof fn lemma_the_known_history_ends_at_the_last_death(
    deaths: Seq<Option<StarDeath>>,
    end: UniverseTime,
    last: UniverseTime,
)
    requires
        known_until_is(deaths, end, last),
    ensures
        (deaths.len() == 0 || exists|k: int| 0 <= k < deaths.len() && #[trigger] deaths[k] is None)
            ==> last == end,
        deaths.len() > 0 && (forall|k: int| 0 <= k < deaths.len() ==> #[trigger] deaths[k] is Some)
            ==> (forall|k: int| 0 <= k < deaths.len() ==> (#[trigger] deaths[k]).unwrap().at@ <= last@)
            && exists|k: int| 0 <= k < deaths.len() && (#[trigger] deaths[k]).unwrap().at == last,
{
    if exists|k: int| 0 <= k < deaths.len() && #[trigger] deaths[k] is None {
        let k = choose|k: int| 0 <= k < deaths.len() && #[trigger] deaths[k] is None;
        assert(!all_die(deaths));
    }
}

/// What each sudden death did to a walked body ([`walked`]): each segment the walk added starts
/// at the next death, after the engulfment model found the body on the segment before clear
/// through the stretch to the nanosecond before that death, and carries the elements the
/// explode model gave at the death: the body's new bound orbit, or the orbit it plunges on.
pub proof fn lemma_what_each_death_did<
    S,
    F: Fn(Segment<S>, UniverseTime) -> Option<UniverseTime>,
    G: Fn(Segment<S>, UniverseTime, usize) -> Aftermath<S>,
>(
    engulfment: F,
    explode: G,
    sudden: Seq<(UniverseTime, usize)>,
    last: UniverseTime,
    before: FateView<S>,
    after: FateView<S>,
)
    requires
        walked(engulfment, explode, sudden, last, before, after),
        before.segments.len() >= 1,
    ensures
        forall|i: int|
            before.segments.len() <= i < after.segments.len() ==> {
                let n0 = before.segments.len() as int;
                let death = sudden[i - n0];
                let previous = after.segments[i - 1];
                &&& i - n0 < sudden.len()
                &&& (#[trigger] after.segments[i]).start == death.0
                &&& crate::time::on_clock(death.0@ - 1) ==> exists|t: UniverseTime|
                    t@ == death.0@ - 1 && #[trigger] engulfment.ensures((previous, t), None)
                &&& explode.ensures((previous, death.0, death.1), Aftermath::Bound(after.segments[i].elements))
                    || exists|at: UniverseTime|
                    #[trigger] explode.ensures(
                        (previous, death.0, death.1),
                        Aftermath::Disrupted { orbit: Some(after.segments[i].elements), at },
                    )
            },
{
    lemma_walk_event(engulfment, explode, sudden, last, before, after);
    let n0 = before.segments.len() as int;
    let b = bound_deaths(engulfment, explode, sudden, last, before, after);
    let len = after.segments.len() as int;
    assert forall|i: int| n0 <= i < len implies {
        let death = sudden[i - n0];
        let previous = after.segments[i - 1];
        &&& i - n0 < sudden.len()
        &&& (#[trigger] after.segments[i]).start == death.0
        &&& crate::time::on_clock(death.0@ - 1) ==> exists|t: UniverseTime|
            t@ == death.0@ - 1 && #[trigger] engulfment.ensures((previous, t), None)
        &&& explode.ensures((previous, death.0, death.1), Aftermath::Bound(after.segments[i].elements))
            || exists|at: UniverseTime|
            #[trigger] explode.ensures(
                (previous, death.0, death.1),
                Aftermath::Disrupted { orbit: Some(after.segments[i].elements), at },
            )
    } by {
        let j = i - n0;
        if i < n0 + b {
            assert(bound_step(engulfment, explode, sudden, last, after.segments, n0, j));
            assert(after.segments[n0 - 1 + j] == after.segments[i - 1]);
            assert(next_death(sudden, j) == Some(sudden[j]));
        } else {
            assert(i == n0 + b && len == n0 + b + 1);
            assert(after.segments.last() == after.segments[i]);
            assert(next_death(sudden, b) == Some(sudden[b]));
            let at = after.ending.unwrap()->Destroyed_at;
            assert(explode.ensures(
                (after.segments[i - 1], sudden[b].0, sudden[b].1),
                Aftermath::Disrupted { orbit: Some(after.segments[i].elements), at },
            ));
        }
    }
}

/// Whether one of a host's stars, dying as `deaths` say, dies suddenly at `at`.
pub open spec fn a_sudden_death_at(deaths: Seq<Option<StarDeath>>, at: UniverseTime) -> bool {
    exists|k: int| 0 <= k < deaths.len() && deaths[k] == Some(StarDeath { at, sudden: true })
}

/// Each segment a walk ([`walked`]) adds starts at the next of the deaths `sudden`.
proof fn lemma_added_segments_start_at_deaths<
    S,
    F: Fn(Segment<S>, UniverseTime) -> Option<UniverseTime>,
    G: Fn(Segment<S>, UniverseTime, usize) -> Aftermath<S>,
>(
    engulfment: F,
    explode: G,
    sudden: Seq<(UniverseTime, usize)>,
    last: UniverseTime,
    before: FateView<S>,
    after: FateView<S>,
)
    requires
        walked(engulfment, explode, sudden, last, before, after),
        before.segments.len() >= 1,
    ensures
        after.segments.len() >= before.segments.len(),
        after.segments.subrange(0, before.segments.len() as int) == before.segments,
        forall|i: int|
            before.segments.len() <= i < after.segments.len() ==> i - before.segments.len()
                < sudden.len() && (#[trigger] after.segments[i]).start == sudden[i
                - before.segments.len()].0,
{
    lemma_walk_event(engulfment, explode, sudden, last, before, after);
    let n0 = before.segments.len() as int;
    let b = bound_deaths(engulfment, explode, sudden, last, before, after);
    assert forall|i: int| n0 <= i < after.segments.len() implies i - n0 < sudden.len() && (
    #[trigger] after.segments[i]).start == sudden[i - n0].0 by {
        if i < n0 + b {
            assert(bound_step(engulfment, explode, sudden, last, after.segments, n0, i - n0));
        } else {
            assert(after.segments.last() == after.segments[i]);
        }
    }
}

/// The segments of a walk from a body's formation through its host's sudden deaths `sudden`:
/// the first is the one it formed on, and each later one starts at a sudden death of a host
/// star.
proof fn lemma_walked_segments<
    S,
    F: Fn(Segment<S>, UniverseTime) -> Option<UniverseTime>,
    G: Fn(Segment<S>, UniverseTime, usize) -> Aftermath<S>,
>(
    h: FateView<S>,
    window: ClockWindow,
    f: UniverseTime,
    deaths: Seq<Option<StarDeath>>,
    elements: S,
    engulfment: F,
    explode: G,
    sudden: Seq<(UniverseTime, usize)>,
    last: UniverseTime,
)
    requires
        lists_sudden_deaths(deaths, sudden),
        walked(engulfment, explode, sudden, last, just_formed(window, f, elements), h),
    ensures
        h.segments.len() >= 1,
        h.segments[0] == (Segment { start: f, elements }),
        forall|i: int|
            1 <= i < h.segments.len() ==> a_sudden_death_at(deaths, (#[trigger] h.segments[i]).start),
{
    let before = just_formed(window, f, elements);
    lemma_added_segments_start_at_deaths(engulfment, explode, sudden, last, before, h);
    assert(h.segments.subrange(0, 1) == before.segments);
    assert(h.segments[0] == h.segments.subrange(0, 1)[0]);
    assert forall|i: int| 1 <= i < h.segments.len() implies a_sudden_death_at(
        deaths,
        (#[trigger] h.segments[i]).start,
    ) by {
        assert(h.segments[i].start == sudden[i - 1].0);
        assert(dies_suddenly_at(deaths, sudden[i - 1].1 as int, sudden[i - 1].0));
        let k = sudden[i - 1].1 as int;
        assert(0 <= k < deaths.len() && deaths[k] == Some(StarDeath { at: h.segments[i].start, sudden: true }));
    }
}

/// A resolved history ([`resolves`]) is over the window asked for; the body forms at its
/// formation age's clock time exactly when every host star that dies does so strictly later;
/// its first segment starts then on the elements it was given; and each later segment starts at
/// a sudden death of one of its host's stars, in order.
pub proof fn lemma_a_resolved_history<
    S,
    F: Fn(Segment<S>, UniverseTime) -> Option<UniverseTime>,
    G: Fn(Segment<S>, UniverseTime, usize) -> Aftermath<S>,
>(
    h: FateView<S>,
    window: ClockWindow,
    formation: Option<UniverseTime>,
    deaths: Seq<Option<StarDeath>>,
    elements: S,
    engulfment: F,
    explode: G,
)
    requires
        resolves(h, window, formation, deaths, elements, engulfment, explode),
    ensures
        h.window == window,
        h.formed_at is Some <==> (formation is Some && forall|k: int|
            0 <= k < deaths.len() && #[trigger] deaths[k] is Some ==> formation.unwrap()@
                < deaths[k].unwrap().at@),
        h.formed_at is Some ==> h.formed_at == formation && h.segments[0] == (Segment {
            start: formation.unwrap(),
            elements,
        }),
        h.formed_at is None ==> h.segments.len() == 0 && h.ending is None,
        forall|i: int|
            1 <= i < h.segments.len() ==> a_sudden_death_at(deaths, (#[trigger] h.segments[i]).start),
        forall|i: int, j: int|
            0 <= i <= j < h.segments.len() ==> h.segments[i].start@ <= h.segments[j].start@,
{
    lemma_formation_comes_before_every_death(formation, deaths);
    assert forall|i: int, j: int| 0 <= i <= j < h.segments.len() implies h.segments[i].start@
        <= h.segments[j].start@ by {
        assert(starts(h.segments)[i] <= starts(h.segments)[j]);
    }
    if h.formed_at is Some {
        let f = h.formed_at.unwrap();
        let (s, l) = choose|sudden: Seq<(UniverseTime, usize)>, l: UniverseTime|
            #![trigger lists_sudden_deaths(deaths, sudden), known_until_is(deaths, window.end, l)]
            {
                &&& lists_sudden_deaths(deaths, sudden)
                &&& known_until_is(deaths, window.end, l)
                &&& if f@ <= l@ {
                    walked(engulfment, explode, sudden, l, just_formed(window, f, elements), h)
                } else {
                    h == just_formed(window, f, elements)
                }
            };
        if f@ <= l@ {
            lemma_walked_segments(h, window, f, deaths, elements, engulfment, explode, s, l);
        } else {
            assert(h.segments =~= seq![Segment { start: f, elements }]);
            assert(h.segments.len() == 1);
        }
    }
}

} // verus!
