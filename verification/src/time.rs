//! The universe clock: whole seconds since the epoch and the nanoseconds of the second, with the
//! window of it that the models are built over.

use vstd::prelude::*;

verus! {

/// Nanoseconds in a second.
pub const NANOS_PER_SECOND: u32 = 1_000_000_000;

/// The least instant the clock holds, in nanoseconds since the epoch.
pub open spec fn clock_min() -> int {
    i64::MIN as int * 1_000_000_000
}

/// One past the greatest instant the clock holds, in nanoseconds since the epoch.
pub open spec fn clock_end() -> int {
    (i64::MAX as int + 1) * 1_000_000_000
}

/// Whether `n` nanoseconds since the epoch is an instant of the clock.
pub open spec fn on_clock(n: int) -> bool {
    clock_min() <= n < clock_end()
}

/// An instant of the universe clock: `seconds` whole seconds after the epoch (before it, where
/// negative) and `nanos` nanoseconds more.
#[derive(Debug, Clone, Copy, PartialEq, Eq, Hash, PartialOrd, Ord, Structural)]
pub struct UniverseTime {
    seconds: i64,
    nanos: u32,
}

impl View for UniverseTime {
    type V = int;

    /// The instant in nanoseconds since the epoch.
    closed spec fn view(&self) -> int {
        self.seconds as int * 1_000_000_000 + self.nanos as int
    }
}

impl UniverseTime {
    /// The nanoseconds are those of one second.
    #[verifier::type_invariant]
    spec fn within_second(self) -> bool {
        self.nanos < 1_000_000_000
    }

    /// The epoch, the clock's zero.
    pub fn epoch() -> (t: Self)
        ensures
            t@ == 0,
    {
        UniverseTime { seconds: 0, nanos: 0 }
    }

    /// The instant `seconds` and `nanos` after the epoch, if `nanos` is less than a second.
    pub fn new(seconds: i64, nanos: u32) -> (t: Option<Self>)
        ensures
            t is Some <==> nanos < NANOS_PER_SECOND,
            t matches Some(t) ==> t@ == seconds as int * 1_000_000_000 + nanos as int,
    {
        if nanos < NANOS_PER_SECOND {
            Some(UniverseTime { seconds, nanos })
        } else {
            None
        }
    }

    /// The whole seconds since the epoch: the floor of the instant in seconds.
    pub fn seconds(&self) -> (s: i64)
        ensures
            s as int == self@ / 1_000_000_000,
    {
        proof {
            use_type_invariant(self);
        }
        self.seconds
    }

    /// The nanoseconds past the whole second.
    pub fn subsec_nanos(&self) -> (n: u32)
        ensures
            n as int == self@ % 1_000_000_000,
    {
        proof {
            use_type_invariant(self);
        }
        self.nanos
    }

    /// The instant in nanoseconds since the epoch.
    pub fn nanos(&self) -> (n: i128)
        ensures
            n as int == self@,
            on_clock(self@),
    {
        proof {
            use_type_invariant(self);
            let s = self.seconds as int;
            assert(i64::MIN as int * 1_000_000_000 <= s * 1_000_000_000 <= i64::MAX as int
                * 1_000_000_000) by (nonlinear_arith)
                requires
                    i64::MIN <= s <= i64::MAX,
            ;
        }
        (self.seconds as i128) * (NANOS_PER_SECOND as i128) + (self.nanos as i128)
    }

    /// The instant `n` nanoseconds after the epoch, if the clock holds it.
    pub fn from_nanos(n: i128) -> (t: Option<Self>)
        ensures
            t is Some <==> on_clock(n as int),
            t matches Some(t) ==> t@ == n as int,
    {
        let per_second = NANOS_PER_SECOND as i128;
        let mut seconds = n / per_second;
        let mut rest = n % per_second;
        if rest < 0 {
            seconds = seconds - 1;
            rest = rest + per_second;
        }
        assert(seconds * 1_000_000_000 + rest == n && 0 <= rest < 1_000_000_000);
        if seconds < i64::MIN as i128 || seconds > i64::MAX as i128 {
            assert(!on_clock(n as int));
            return None;
        }
        Some(UniverseTime { seconds: seconds as i64, nanos: rest as u32 })
    }

    /// Whether this instant is strictly before `other`.
    pub fn is_before(&self, other: &Self) -> (b: bool)
        ensures
            b == (self@ < other@),
    {
        proof {
            use_type_invariant(self);
            use_type_invariant(other);
        }
        self.seconds < other.seconds || (self.seconds == other.seconds && self.nanos < other.nanos)
    }

    /// Whether this instant is at or before `other`.
    pub fn is_at_or_before(&self, other: &Self) -> (b: bool)
        ensures
            b == (self@ <= other@),
    {
        !other.is_before(self)
    }

    /// The same instant, as a value: an instant has one form.
    pub fn same(&self, other: &Self) -> (b: bool)
        ensures
            b == (self@ == other@),
            b == (*self == *other),
    {
        proof {
            use_type_invariant(self);
            use_type_invariant(other);
            let (a, x, c, y) = (self.seconds as int, self.nanos as int, other.seconds as int, other.nanos as int);
            assert(a * 1_000_000_000 + x == c * 1_000_000_000 + y ==> a == c && x == y) by (nonlinear_arith)
                requires
                    0 <= x < 1_000_000_000,
                    0 <= y < 1_000_000_000,
            ;
        }
        self.is_at_or_before(other) && other.is_at_or_before(self)
    }

    /// The instant one nanosecond earlier, if the clock holds it.
    pub fn nanosecond_before(&self) -> (t: Option<Self>)
        ensures
            t is Some <==> on_clock(self@ - 1),
            t matches Some(t) ==> t@ == self@ - 1,
    {
        proof {
            use_type_invariant(self);
        }
        if self.nanos > 0 {
            Some(UniverseTime { seconds: self.seconds, nanos: self.nanos - 1 })
        } else if self.seconds > i64::MIN {
            Some(UniverseTime { seconds: self.seconds - 1, nanos: NANOS_PER_SECOND - 1 })
        } else {
            None
        }
    }

    /// The later of the two instants.
    pub fn latest(self, other: Self) -> (t: Self)
        ensures
            t@ == if self@ < other@ { other@ } else { self@ },
            t == self || t == other,
    {
        if self.is_before(&other) {
            other
        } else {
            self
        }
    }
}

/// The stretch of the clock over which the stellar models are built: its first and last
/// instants, both included.
#[derive(Debug, Clone, Copy, PartialEq, Eq, Hash, Structural)]
pub struct ClockWindow {
    /// The first instant.
    pub start: UniverseTime,
    /// The last instant.
    pub end: UniverseTime,
}

impl ClockWindow {
    /// Whether `t` lies in the window, its ends included.
    pub open spec fn holds(self, t: UniverseTime) -> bool {
        self.start@ <= t@ <= self.end@
    }

    /// Whether `t` lies in the window, its ends included.
    pub fn contains(&self, t: &UniverseTime) -> (b: bool)
        ensures
            b == self.holds(*t),
    {
        self.start.is_at_or_before(t) && t.is_at_or_before(&self.end)
    }
}

} // verus!
