//! The habitable zone: where liquid water can persist on a rocky planet's surface.
//!
//! Kopparapu et al. (2013, erratum Table 3) give five limits, from the star outwards. The
//! conservative zone runs from the moist greenhouse to the maximum greenhouse, the optimistic one
//! from recent Venus to early Mars. The limits' distances are the model's (floating point); a zone
//! holds them in the caller's type of distance.

use vstd::prelude::*;

verus! {

/// The five limits, in order from the star outwards.
#[derive(Debug, Clone, Copy, PartialEq, Eq, Hash, PartialOrd, Ord, Structural)]
pub enum HabitableLimit {
    /// Recent Venus: Venus has had no surface water for at least a billion years. The optimistic
    /// inner edge.
    RecentVenus,
    /// Runaway greenhouse: the oceans evaporate entirely.
    RunawayGreenhouse,
    /// Moist greenhouse: water reaches the stratosphere and is lost to space. The conservative
    /// inner edge.
    MoistGreenhouse,
    /// Maximum greenhouse: more carbon dioxide cools rather than warms. The conservative outer
    /// edge.
    MaximumGreenhouse,
    /// Early Mars: Mars had liquid water 3.8 billion years ago. The optimistic outer edge.
    EarlyMars,
}

/// The position of a limit from the star outwards.
pub open spec fn limit_position(limit: HabitableLimit) -> int {
    match limit {
        HabitableLimit::RecentVenus => 0,
        HabitableLimit::RunawayGreenhouse => 1,
        HabitableLimit::MoistGreenhouse => 2,
        HabitableLimit::MaximumGreenhouse => 3,
        HabitableLimit::EarlyMars => 4,
    }
}

impl HabitableLimit {
    /// Every limit, from the star outwards.
    pub fn all() -> (limits: [Self; 5])
        ensures
            forall|i: int| 0 <= i < 5 ==> limit_position(#[trigger] limits@[i]) == i,
    {
        [
            HabitableLimit::RecentVenus,
            HabitableLimit::RunawayGreenhouse,
            HabitableLimit::MoistGreenhouse,
            HabitableLimit::MaximumGreenhouse,
            HabitableLimit::EarlyMars,
        ]
    }

    /// The limit's position in [`HabitableLimit::all`].
    fn index(self) -> (i: usize)
        ensures
            i == limit_position(self),
    {
        match self {
            HabitableLimit::RecentVenus => 0,
            HabitableLimit::RunawayGreenhouse => 1,
            HabitableLimit::MoistGreenhouse => 2,
            HabitableLimit::MaximumGreenhouse => 3,
            HabitableLimit::EarlyMars => 4,
        }
    }
}

/// A host's habitable zone: the distances of the five limits, and whether the host's temperature
/// lay outside the fit.
///
/// A limit is infinite where companions at fixed distances alone give more than its flux, so that
/// every orbit lies inside it, and zero about a host that gives no light.
#[derive(Debug, Clone, Copy, PartialEq)]
pub struct HabitableZone<L> {
    limits: [L; 5],
    extrapolated: bool,
}

impl<L> View for HabitableZone<L> {
    type V = (Seq<L>, bool);

    closed spec fn view(&self) -> (Seq<L>, bool) {
        (self.limits@, self.extrapolated)
    }
}

impl<L: Copy> HabitableZone<L> {
    /// The zone whose limits, from the star outwards, lie at `limits`, flagged `extrapolated`
    /// where the host's temperature lay outside the fit.
    pub fn from_limits(limits: [L; 5], extrapolated: bool) -> (zone: Self)
        ensures
            zone@.0 == limits@,
            zone@.1 == extrapolated,
    {
        HabitableZone { limits, extrapolated }
    }

    /// The distance of `limit`.
    pub fn limit(&self, limit: HabitableLimit) -> (d: L)
        ensures
            self@.0.len() == 5,
            d == self@.0[limit_position(limit)],
    {
        self.limits[limit.index()]
    }

    /// The recent-Venus limit, the optimistic inner edge.
    pub fn recent_venus(&self) -> (d: L)
        ensures
            d == self@.0[0],
    {
        self.limit(HabitableLimit::RecentVenus)
    }

    /// The runaway-greenhouse limit.
    pub fn runaway_greenhouse(&self) -> (d: L)
        ensures
            d == self@.0[1],
    {
        self.limit(HabitableLimit::RunawayGreenhouse)
    }

    /// The moist-greenhouse limit, the conservative inner edge.
    pub fn moist_greenhouse(&self) -> (d: L)
        ensures
            d == self@.0[2],
    {
        self.limit(HabitableLimit::MoistGreenhouse)
    }

    /// The maximum-greenhouse limit, the conservative outer edge.
    pub fn maximum_greenhouse(&self) -> (d: L)
        ensures
            d == self@.0[3],
    {
        self.limit(HabitableLimit::MaximumGreenhouse)
    }

    /// The early-Mars limit, the optimistic outer edge.
    pub fn early_mars(&self) -> (d: L)
        ensures
            d == self@.0[4],
    {
        self.limit(HabitableLimit::EarlyMars)
    }

    /// The conservative zone, moist greenhouse to maximum greenhouse.
    pub fn conservative(&self) -> (zone: (L, L))
        ensures
            zone == (self@.0[2], self@.0[3]),
    {
        (self.moist_greenhouse(), self.maximum_greenhouse())
    }

    /// The optimistic zone, recent Venus to early Mars.
    pub fn optimistic(&self) -> (zone: (L, L))
        ensures
            zone == (self@.0[0], self@.0[4]),
    {
        (self.recent_venus(), self.early_mars())
    }

    /// Whether a shining host's effective temperature lay outside the fit's 2,600–7,200 K, where
    /// it was held to the nearer end.
    pub fn extrapolated(&self) -> (b: bool)
        ensures
            b == self@.1,
    {
        self.extrapolated
    }
}

} // verus!
