//! The search for the first time a body is engulfed: a scan of fixed points, then the halving of
//! a bracket on the clock's nanoseconds, which narrows the first crossing of a clearance to within
//! a second.
//!
//! Whether the clearance is negative at a time is the orbital model's (floating point), and so
//! are the scan's points; the order of the probes, and what is found, are this module's.
//!
//! The bracket starts from a time at which the clearance is not negative and a later one at
//! which it is; each step probes the midpoint, and the caller reports whether the clearance is
//! negative there. It stops once the bracket is a second or less, or after
//! [`BISECTION_STEPS`] halvings, and the time found is the bracket's later end, at which the
//! clearance is negative.

use vstd::prelude::*;

use crate::time::UniverseTime;

verus! {

/// The most halvings: enough to take any bracket on the clock to under a second (2⁶⁴ ns is 585
/// years, and 2⁶⁴ s is far beyond the clock).
pub const BISECTION_STEPS: u32 = 64;

/// A bracket being halved.
#[derive(Debug, Clone, Copy, PartialEq, Eq)]
pub struct Bisection {
    lo: UniverseTime,
    hi: UniverseTime,
    steps: u32,
}

/// The view of a bracket: its ends in nanoseconds, and the halvings so far.
pub struct BisectionView {
    /// The earlier end.
    pub lo: int,
    /// The later end.
    pub hi: int,
    /// The halvings so far.
    pub steps: int,
}

impl View for Bisection {
    type V = BisectionView;

    closed spec fn view(&self) -> BisectionView {
        BisectionView { lo: self.lo@, hi: self.hi@, steps: self.steps as int }
    }
}

impl BisectionView {
    /// Whether the halving has finished: the bracket is a second or less, or the halvings are
    /// spent.
    pub open spec fn done(self) -> bool {
        self.hi - self.lo <= 1_000_000_000 || self.steps >= 64
    }

    /// The midpoint the next step probes.
    pub open spec fn midpoint(self) -> int {
        self.lo + (self.hi - self.lo) / 2
    }
}

impl Bisection {
    /// The ends are in order, and the halvings within their bound.
    #[verifier::type_invariant]
    spec fn in_order(self) -> bool {
        self.lo@ < self.hi@ && self.steps <= BISECTION_STEPS
    }

    /// The bracket from `lo` to `hi`, if `lo` is before `hi`.
    pub fn new(lo: UniverseTime, hi: UniverseTime) -> (b: Option<Self>)
        ensures
            b is Some <==> lo@ < hi@,
            b matches Some(b) ==> b@ == (BisectionView { lo: lo@, hi: hi@, steps: 0 }),
    {
        if lo.is_before(&hi) {
            Some(Bisection { lo, hi, steps: 0 })
        } else {
            None
        }
    }

    /// The time to probe next, or `None` once the halving has finished.
    pub fn probe(&self) -> (t: Option<UniverseTime>)
        ensures
            t is None <==> self@.done(),
            t matches Some(t) ==> t@ == self@.midpoint() && self@.lo < t@ < self@.hi,
    {
        proof {
            use_type_invariant(self);
        }
        let (low, high) = (self.lo.nanos(), self.hi.nanos());
        if high - low <= 1_000_000_000 || self.steps >= BISECTION_STEPS {
            return None;
        }
        let mid = low + (high - low) / 2;
        match UniverseTime::from_nanos(mid) {
            Some(t) => Some(t),
            None => {
                proof {
                    assert(false);
                }
                None
            },
        }
    }

    /// Halves the bracket by what the clearance was at the probe: its later end moves there if
    /// the clearance was negative, its earlier end otherwise. Nothing changes once the halving
    /// has finished.
    pub fn record(&mut self, negative: bool)
        ensures
            old(self)@.done() ==> final(self)@ == old(self)@,
            !old(self)@.done() ==> final(self)@ == (if negative {
                BisectionView { hi: old(self)@.midpoint(), steps: old(self)@.steps + 1, ..old(self)@ }
            } else {
                BisectionView { lo: old(self)@.midpoint(), steps: old(self)@.steps + 1, ..old(self)@ }
            }),
    {
        if let Some(mid) = self.probe() {
            if negative {
                *self = Bisection { lo: self.lo, hi: mid, steps: self.steps + 1 };
            } else {
                *self = Bisection { lo: mid, hi: self.hi, steps: self.steps + 1 };
            }
        }
    }

    /// The time found: the bracket's later end.
    pub fn found(&self) -> (t: UniverseTime)
        ensures
            t@ == self@.hi,
    {
        self.hi
    }
}

/// The halving narrows: each step keeps the bracket inside the one before, and leaves it at
/// most half as long, rounded up.
pub proof fn lemma_each_step_halves(before: BisectionView, negative: bool)
    requires
        before.lo < before.hi,
        !before.done(),
    ensures
        ({
            let after = if negative {
                BisectionView { hi: before.midpoint(), steps: before.steps + 1, ..before }
            } else {
                BisectionView { lo: before.midpoint(), steps: before.steps + 1, ..before }
            };
            &&& before.lo <= after.lo < after.hi <= before.hi
            &&& 2 * (after.hi - after.lo) <= before.hi - before.lo + 1
            &&& after.steps == before.steps + 1
        }),
{
}

/// Two to the power `n`.
pub open spec fn two_to(n: nat) -> nat
    decreases n,
{
    if n == 0 {
        1
    } else {
        2 * two_to((n - 1) as nat)
    }
}

/// Sixty-four halvings divide by 2⁶⁴.
proof fn lemma_two_to_64()
    ensures
        two_to(64) == 18_446_744_073_709_551_616,
{
    reveal_with_fuel(two_to, 65);
}

/// A bracket on the clock, halved sixty-four times, is a second or less.
proof fn lemma_spent_halvings_reach_a_second(x: int, h: int)
    requires
        two_to(64) * x <= h + two_to(64) - 1,
        h < 18_446_744_073_709_551_616 * 1_000_000_000,
    ensures
        x <= 1_000_000_000,
{
    lemma_two_to_64();
    assert(x <= 1_000_000_000) by (nonlinear_arith)
        requires
            18_446_744_073_709_551_616 * x <= h + 18_446_744_073_709_551_616 - 1,
            h < 18_446_744_073_709_551_616 * 1_000_000_000,
    ;
}

/// The bracket from `lo` to `hi`, in nanoseconds, after the probes `probes`, each a time and
/// whether `negative` held there: the later end moves to a probe where it held, the earlier end
/// to the others.
pub open spec fn bracket_after(lo: int, hi: int, probes: Seq<(UniverseTime, bool)>) -> (int, int)
    decreases probes.len(),
{
    if probes.len() == 0 {
        (lo, hi)
    } else {
        let (l, h) = bracket_after(lo, hi, probes.drop_last());
        if probes.last().1 {
            (l, probes.last().0@)
        } else {
            (probes.last().0@, h)
        }
    }
}

/// Whether the `i`-th of `probes` is the one the halving of the bracket from `lo` to `hi` makes
/// then: the bracket is not yet done, the probe is its midpoint, and `negative` gave its answer
/// there.
pub open spec fn probe_made<F: Fn(UniverseTime) -> bool>(
    lo: int,
    hi: int,
    probes: Seq<(UniverseTime, bool)>,
    i: int,
    negative: F,
) -> bool {
    let (l, h) = bracket_after(lo, hi, probes.take(i));
    &&& !(BisectionView { lo: l, hi: h, steps: i }).done()
    &&& probes[i].0@ == (BisectionView { lo: l, hi: h, steps: i }).midpoint()
    &&& negative.ensures((probes[i].0,), probes[i].1)
}

/// Whether the halving of the bracket from `lo` to `hi` ends at `t`: there are probes, each made
/// as the halving makes it ([`probe_made`]), after which the bracket is done, and `t` is its
/// later end.
pub open spec fn halved_to<F: Fn(UniverseTime) -> bool>(
    lo: UniverseTime,
    hi: UniverseTime,
    t: UniverseTime,
    negative: F,
) -> bool {
    exists|probes: Seq<(UniverseTime, bool)>|
        {
            &&& forall|i: int|
                0 <= i < probes.len() ==> #[trigger] probe_made(lo@, hi@, probes, i, negative)
            &&& (BisectionView {
                lo: bracket_after(lo@, hi@, probes).0,
                hi: bracket_after(lo@, hi@, probes).1,
                steps: probes.len() as int,
            }).done()
            &&& t@ == bracket_after(lo@, hi@, probes).1
        }
}

/// Whether `t` is what the halving of the bracket from `lo` to `hi` finds ([`halved_to`]): a
/// time after `lo` and no later than `hi` at which `negative` holds, within a second of a time
/// `p` before it that is `lo` or one at which `negative` was found not to hold.
pub open spec fn narrowed<F: Fn(UniverseTime) -> bool>(
    lo: UniverseTime,
    hi: UniverseTime,
    t: UniverseTime,
    negative: F,
) -> bool {
    &&& halved_to(lo, hi, t, negative)
    &&& lo@ < t@ <= hi@
    &&& negative.ensures((t,), true)
    &&& exists|p: UniverseTime|
        {
            &&& lo@ <= p@ < t@
            &&& t@ - p@ <= 1_000_000_000
            &&& #[trigger] clear_or_from(lo, p, negative)
        }
}

/// Whether `p` is `lo`, or a time at which `negative` was found not to hold.
pub open spec fn clear_or_from<F: Fn(UniverseTime) -> bool>(
    lo: UniverseTime,
    p: UniverseTime,
    negative: F,
) -> bool {
    p == lo || negative.ensures((p,), false)
}

/// The later end of the bracket from `lo` to `hi`, at which `negative` holds, once halved as
/// [`Bisection`] halves it: to a second or less, in at most [`BISECTION_STEPS`] halvings, moving
/// its later end to each midpoint at which `negative` holds and its earlier end to the others.
/// On the clock the halvings always reach a second.
pub fn bisect<F: Fn(UniverseTime) -> bool>(lo: UniverseTime, hi: UniverseTime, negative: &F) -> (t:
    UniverseTime)
    requires
        lo@ < hi@,
        forall|t: UniverseTime| negative.requires((t,)),
        negative.ensures((hi,), true),
    ensures
        narrowed(lo, hi, t, *negative),
{
    let (low, high) = (lo.nanos(), hi.nanos());
    let mut bracket = Bisection::new(lo, hi).unwrap();
    let mut later = hi;
    let mut earlier = lo;
    let ghost mut probes: Seq<(UniverseTime, bool)> = Seq::empty();
    proof {
        assert(two_to(0) == 1);
        assert(bracket@.steps == 0);
        assert(two_to(bracket@.steps as nat) == 1);
    }
    loop
        invariant
            forall|t: UniverseTime| negative.requires((t,)),
            negative.ensures((later,), true),
            earlier == lo || negative.ensures((earlier,), false),
            later@ == bracket@.hi,
            earlier@ == bracket@.lo,
            lo@ <= bracket@.lo < bracket@.hi <= hi@,
            0 <= bracket@.steps <= 64,
            two_to(bracket@.steps as nat) * (bracket@.hi - bracket@.lo) <= hi@ - lo@ + two_to(
                bracket@.steps as nat,
            ) - 1,
            crate::time::on_clock(lo@),
            crate::time::on_clock(hi@),
            probes.len() == bracket@.steps,
            bracket_after(lo@, hi@, probes) == (bracket@.lo, bracket@.hi),
            forall|i: int|
                0 <= i < probes.len() ==> #[trigger] probe_made(lo@, hi@, probes, i, *negative),
        decreases 64 - bracket@.steps,
    {
        proof {
            use_type_invariant(&bracket);
        }
        let mid = match bracket.probe() {
            None => {
                proof {
                    let b = bracket@;
                    if b.hi - b.lo > 1_000_000_000 {
                        lemma_spent_halvings_reach_a_second(b.hi - b.lo, hi@ - lo@);
                    }
                    assert(clear_or_from(lo, earlier, *negative));
                    assert(lo@ <= earlier@ < later@ && later@ - earlier@ <= 1_000_000_000);
                    assert(halved_to(lo, hi, later, *negative));
                }
                return later;
            },
            Some(mid) => mid,
        };
        let ghost before = bracket@;
        let clear_below = negative(mid);
        bracket.record(clear_below);
        if clear_below {
            later = mid;
        } else {
            earlier = mid;
        }
        proof {
            let old_probes = probes;
            probes = probes.push((mid, clear_below));
            assert(probes.drop_last() =~= old_probes);
            assert(old_probes.take(old_probes.len() as int) =~= old_probes);
            assert(probe_made(lo@, hi@, probes, old_probes.len() as int, *negative));
            assert forall|i: int|
                0 <= i < probes.len() implies #[trigger] probe_made(lo@, hi@, probes, i, *negative) by {
                if i < old_probes.len() {
                    assert(probe_made(lo@, hi@, old_probes, i, *negative));
                    assert(probes.take(i) =~= old_probes.take(i));
                }
            }
        }
        proof {
            use_type_invariant(&bracket);
            lemma_each_step_halves(before, clear_below);
            let p = two_to(before.steps as nat);
            let (a, c) = (bracket@.hi - bracket@.lo, before.hi - before.lo);
            assert(two_to((before.steps + 1) as nat) == 2 * p);
            assert(2 * p * a <= p * c + p) by (nonlinear_arith)
                requires
                    2 * a <= c + 1,
                    p >= 0,
            ;
        }
    }
}

/// The last of `points`, or `start` where there are none.
pub open spec fn last_or(points: Seq<UniverseTime>, start: UniverseTime) -> UniverseTime {
    if points.len() == 0 {
        start
    } else {
        points.last()
    }
}

/// The points of `scan` the search probes after `start`, in order: each point after the last
/// one probed.
pub open spec fn probed(scan: Seq<UniverseTime>, start: UniverseTime) -> Seq<UniverseTime>
    decreases scan.len(),
{
    if scan.len() == 0 {
        Seq::empty()
    } else {
        let before = probed(scan.drop_last(), start);
        if last_or(before, start)@ < scan.last()@ {
            before.push(scan.last())
        } else {
            before
        }
    }
}

/// Every point the search probes after `start`, in order: the scan's, then `end` where it comes
/// after the last of them.
pub open spec fn search_points(
    scan: Seq<UniverseTime>,
    start: UniverseTime,
    end: UniverseTime,
) -> Seq<UniverseTime> {
    let points = probed(scan, start);
    if last_or(points, start)@ < end@ {
        points.push(end)
    } else {
        points
    }
}

/// Whether `negative` was found not to hold at each of the first `n` of `points`.
pub open spec fn clear_through<F: Fn(UniverseTime) -> bool>(
    points: Seq<UniverseTime>,
    n: int,
    negative: F,
) -> bool {
    forall|i: int| 0 <= i < n ==> #[trigger] negative.ensures((points[i],), false)
}

/// Whether the search over `points` after `start` found `t` at the `j`-th point: `negative` was
/// found not to hold at every point before it and to hold at it, and the halving from the point
/// before (or `start`) found `t`.
pub open spec fn crossed_at<F: Fn(UniverseTime) -> bool>(
    points: Seq<UniverseTime>,
    start: UniverseTime,
    j: int,
    t: UniverseTime,
    negative: F,
) -> bool {
    &&& 0 <= j < points.len()
    &&& clear_through(points, j, negative)
    &&& negative.ensures((points[j],), true)
    &&& narrowed(if j == 0 { start } else { points[j - 1] }, points[j], t, negative)
}

/// What the search probes of a prefix of the scan is a prefix of what it probes of the whole.
proof fn lemma_probed_prefix(scan: Seq<UniverseTime>, start: UniverseTime, k: int)
    requires
        0 <= k <= scan.len(),
    ensures
        probed(scan.subrange(0, k), start).len() <= probed(scan, start).len(),
        probed(scan, start).subrange(0, probed(scan.subrange(0, k), start).len() as int)
            == probed(scan.subrange(0, k), start),
    decreases scan.len() - k,
{
    if k == scan.len() {
        assert(scan.subrange(0, k) =~= scan);
    } else {
        let rest = scan.drop_last();
        assert(rest.subrange(0, k) =~= scan.subrange(0, k));
        lemma_probed_prefix(rest, start, k);
        let p = probed(scan.subrange(0, k), start);
        assert(probed(scan, start).subrange(0, p.len() as int) =~= probed(rest, start).subrange(
            0,
            p.len() as int,
        ));
    }
}

/// The first time from `start` to `end` at which `negative` holds, as a scan then a bisection
/// find it, or `None` where the scan finds none: `start` itself where `negative` holds there;
/// otherwise, where `start` is before `end`, each of the points `scan` in turn and then `end`,
/// skipping any point not after the last one probed ([`search_points`]), until `negative` holds
/// at one, and then [`bisect`] from the point before it.
///
/// The points are the caller's, each between `start` and `end`; they depend on `start` and `end`
/// alone, so every query of a body sees the same engulfment.
pub fn first_engulfment<F: Fn(UniverseTime) -> bool>(
    start: UniverseTime,
    end: UniverseTime,
    scan: &Vec<UniverseTime>,
    negative: F,
) -> (found: Option<UniverseTime>)
    requires
        forall|t: UniverseTime| negative.requires((t,)),
        forall|k: int| 0 <= k < scan.len() ==> start@ <= (#[trigger] scan[k])@ <= end@,
    ensures
        found == Some(start) ==> negative.ensures((start,), true),
        found != Some(start) ==> negative.ensures((start,), false),
        found is None ==> end@ <= start@ || clear_through(
            search_points(scan@, start, end),
            search_points(scan@, start, end).len() as int,
            negative,
        ),
        found matches Some(t) ==> (t == start || start@ < end@ && exists|j: int|
            crossed_at(search_points(scan@, start, end), start, j, t, negative)),
{
    if negative(start) {
        return Some(start);
    }
    if end.is_at_or_before(&start) {
        return None;
    }
    let mut previous = start;
    let mut k: usize = 0;
    while k < scan.len()
        invariant
            forall|t: UniverseTime| negative.requires((t,)),
            forall|j: int| 0 <= j < scan.len() ==> start@ <= (#[trigger] scan[j])@ <= end@,
            negative.ensures((start,), false),
            start@ < end@,
            0 <= k <= scan.len(),
            previous == last_or(probed(scan@.subrange(0, k as int), start), start),
            clear_through(
                probed(scan@.subrange(0, k as int), start),
                probed(scan@.subrange(0, k as int), start).len() as int,
                negative,
            ),
            start@ <= previous@ <= end@,
        decreases scan.len() - k,
    {
        let point = scan[k];
        let ghost before = probed(scan@.subrange(0, k as int), start);
        proof {
            assert(scan@.subrange(0, k + 1).drop_last() =~= scan@.subrange(0, k as int));
            assert(scan@.subrange(0, k + 1).last() == point);
        }
        if previous.is_before(&point) {
            let ghost after = probed(scan@.subrange(0, k + 1), start);
            proof {
                assert(after == before.push(point));
                lemma_probed_prefix(scan@, start, k + 1);
            }
            if negative(point) {
                let t = bisect(previous, point, &negative);
                proof {
                    let points = search_points(scan@, start, end);
                    let full = probed(scan@, start);
                    let j = before.len() as int;
                    assert(full.subrange(0, j + 1) == after);
                    assert forall|i: int| 0 <= i <= j implies points[i] == after[i] by {
                        assert(full.subrange(0, j + 1)[i] == full[i]);
                        if last_or(full, start)@ < end@ {
                            assert(points == full.push(end));
                        }
                    }
                    assert(points[j] == point);
                    assert forall|i: int| 0 <= i < j implies #[trigger] negative.ensures(
                        (points[i],),
                        false,
                    ) by {
                        assert(points[i] == before[i]);
                    }
                    assert(j == 0 ==> previous == start);
                    assert(j > 0 ==> points[j - 1] == previous);
                    assert(crossed_at(points, start, j, t, negative));
                }
                return Some(t);
            }
            previous = point;
            proof {
                assert forall|i: int| 0 <= i < after.len() implies #[trigger] negative.ensures(
                    (after[i],),
                    false,
                ) by {
                    if i < before.len() {
                        assert(after[i] == before[i]);
                    }
                }
            }
        }
        k = k + 1;
    }
    proof {
        assert(scan@.subrange(0, scan.len() as int) =~= scan@);
    }
    if previous.is_before(&end) {
        if negative(end) {
            let t = bisect(previous, end, &negative);
            proof {
                let points = search_points(scan@, start, end);
                let before = probed(scan@, start);
                let j = before.len() as int;
                assert(points == before.push(end));
                assert(points[j] == end);
                assert forall|i: int| 0 <= i < j implies #[trigger] negative.ensures(
                    (points[i],),
                    false,
                ) by {
                    assert(points[i] == before[i]);
                }
                assert(crossed_at(points, start, j, t, negative));
            }
            return Some(t);
        }
        proof {
            let points = search_points(scan@, start, end);
            let before = probed(scan@, start);
            assert(points == before.push(end));
            assert forall|i: int| 0 <= i < points.len() implies #[trigger] negative.ensures(
                (points[i],),
                false,
            ) by {
                if i < before.len() {
                    assert(points[i] == before[i]);
                }
            }
        }
        return None;
    }
    None
}

/// Each probe of the halving moves one end of the bracket to it: the later end where `negative`
/// held there, the earlier end where it did not; with no probe the bracket is the one given.
pub proof fn lemma_each_probe_moves_one_end(
    lo: int,
    hi: int,
    probes: Seq<(UniverseTime, bool)>,
    t: UniverseTime,
    held: bool,
)
    ensures
        bracket_after(lo, hi, Seq::empty()) == (lo, hi),
        held ==> bracket_after(lo, hi, probes.push((t, held))) == (
            bracket_after(lo, hi, probes).0,
            t@,
        ),
        !held ==> bracket_after(lo, hi, probes.push((t, held))) == (
            t@,
            bracket_after(lo, hi, probes).1,
        ),
{
    assert(probes.push((t, held)).drop_last() =~= probes);
}

} // verus!
