use std::cell::RefCell;

use lib::bisect::{bisect, first_engulfment, Bisection};
use lib::time::UniverseTime;

fn nanos(n: i128) -> UniverseTime {
    UniverseTime::from_nanos(n).expect("on the clock")
}

#[test]
fn a_bisection_finds_a_crossing_to_within_a_second_on_its_negative_side() {
    let crossing: i128 = 123_456_789_012;
    let mut bracket = Bisection::new(nanos(0), nanos(1_000_000_000_000)).expect("in order");
    let mut probes = 0;
    while let Some(t) = bracket.probe() {
        bracket.record(t.nanos() >= crossing);
        probes += 1;
    }
    let found = bracket.found().nanos();
    assert!(found >= crossing && found - crossing <= 1_000_000_000, "{found}");
    assert!(probes <= 64);
}

#[test]
fn a_bracket_must_be_in_order_and_a_short_one_is_done() {
    assert!(Bisection::new(nanos(5), nanos(5)).is_none());
    assert!(Bisection::new(nanos(6), nanos(5)).is_none());
    let short = Bisection::new(nanos(0), nanos(1_000_000_000)).expect("in order");
    assert_eq!(short.probe(), None);
    let mut same = short;
    same.record(true);
    assert_eq!(same, short);
    assert_eq!(short.found(), nanos(1_000_000_000));
    let wide = Bisection::new(nanos(0), nanos(4_000_000_000)).expect("in order");
    assert_eq!(wide.probe(), Some(nanos(2_000_000_000)));
}

const SECONDS_PER_JULIAN_YEAR: f64 = 31_557_600.0;

fn years(y: f64) -> UniverseTime {
    nanos((y * SECONDS_PER_JULIAN_YEAR * 1e9).round() as i128)
}

fn in_years(t: UniverseTime) -> f64 {
    t.nanos() as f64 / 1e9 / SECONDS_PER_JULIAN_YEAR
}

/// The scan's points: `end` less the span times 0.75^k, for k = 1 to 64.
fn scan(start: UniverseTime, end: UniverseTime) -> Vec<UniverseTime> {
    let span = (end.nanos() - start.nanos()) as f64;
    let mut left = 1.0;
    (1..=64)
        .map(|_| {
            left *= 0.75;
            nanos(end.nanos() - (span * left).round() as i128)
        })
        .collect()
}

#[test]
fn the_scan_finds_the_first_crossing_even_when_the_clearance_recovers() {
    // A clearance that dips below zero between 700 and 800 years and is positive again at the
    // end, as a planet engulfed at the red-giant tip and widened by the winds after it.
    let start = years(-1000.0);
    let end = years(1000.0);
    let points = scan(start, end);
    let dip = |t: UniverseTime| (700.0..800.0).contains(&in_years(t));
    let found = first_engulfment(start, end, &points, dip).expect("the dip is found");
    let at = in_years(found);
    assert!((at - 700.0).abs() < 1.0 / SECONDS_PER_JULIAN_YEAR * 1.01, "at {at}");
    // A clearance negative at the start is engulfed at the start.
    assert_eq!(first_engulfment(start, end, &points, |_| true), Some(start));
    assert_eq!(first_engulfment(start, end, &points, |_| false), None);
    // A crossing at a known time, found to within a second, on its negative side.
    let crossing = years(123.456);
    let linear = |t: UniverseTime| t.nanos() >= crossing.nanos();
    let found = first_engulfment(start, end, &points, linear).expect("found");
    let off = found.nanos() - crossing.nanos();
    assert!((0..=1_000_000_000).contains(&off), "{off} ns");
    // The points are those of the bracket alone.
    let seen = RefCell::new(Vec::new());
    let _ = first_engulfment(start, end, &points, |t| {
        seen.borrow_mut().push(t);
        false
    });
    let seen = seen.into_inner();
    assert_eq!(seen.len(), 66);
    assert!(seen.windows(2).all(|w| w[0].is_before(&w[1])));
    assert_eq!(seen[0], start);
    assert_eq!(*seen.last().expect("points"), end);
}

#[test]
fn a_scan_skips_points_not_after_the_last_and_an_empty_bracket_has_none() {
    let (start, end) = (years(0.0), years(10.0));
    // Repeated and out-of-order points are probed once, in order.
    let points = vec![years(2.0), years(2.0), years(1.0), years(5.0), end];
    let seen = RefCell::new(Vec::new());
    let found = first_engulfment(start, end, &points, |t| {
        seen.borrow_mut().push(t);
        false
    });
    assert_eq!(found, None);
    assert_eq!(seen.into_inner(), vec![start, years(2.0), years(5.0), end]);
    // An empty or reversed bracket asks of its start alone.
    assert_eq!(first_engulfment(end, end, &vec![], |_| false), None);
    assert_eq!(first_engulfment(end, start, &vec![], |t| t == end), Some(end));
}

#[test]
fn a_bisection_moves_its_later_end_to_each_negative_midpoint() {
    let crossing: i128 = 987_654_321_000;
    let found = bisect(nanos(0), nanos(2_000_000_000_000), &|t: UniverseTime| t.nanos() >= crossing);
    assert!(found.nanos() >= crossing && found.nanos() - crossing <= 1_000_000_000);
    // A bracket of a second or less is not halved: its later end is found.
    let short = bisect(nanos(0), nanos(1_000_000_000), &|_: UniverseTime| true);
    assert_eq!(short, nanos(1_000_000_000));
}

#[test]
fn the_halving_returns_the_later_end_of_its_last_bracket() {
    // From 0–10 s with the crossing at 3.3 s: 5 s negative, 2.5 s not, 3.75 s negative, 3.125 s
    // not, and the bracket 3.125–3.75 s is under a second.
    let probed = RefCell::new(Vec::new());
    let negative = |t: UniverseTime| {
        probed.borrow_mut().push(t.nanos());
        t.nanos() >= 3_300_000_000
    };
    let found = bisect(nanos(0), nanos(10_000_000_000), &negative);
    assert_eq!(found, nanos(3_750_000_000));
    assert_eq!(*probed.borrow(), vec![5_000_000_000, 2_500_000_000, 3_750_000_000, 3_125_000_000]);
}
