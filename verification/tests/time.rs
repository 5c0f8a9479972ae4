use lib::time::{ClockWindow, UniverseTime};

#[test]
fn the_clock_counts_nanoseconds_either_side_of_the_epoch() {
    let t = UniverseTime::new(-2, 250).expect("within a second");
    assert_eq!(t.nanos(), -1_999_999_750);
    assert_eq!(UniverseTime::from_nanos(-1_999_999_750), Some(t));
    assert_eq!(t.seconds(), -2);
    assert_eq!(t.subsec_nanos(), 250);
    assert_eq!(UniverseTime::new(0, 1_000_000_000), None);
    assert_eq!(UniverseTime::from_nanos(-1), UniverseTime::new(-1, 999_999_999));
    assert_eq!(UniverseTime::epoch().nanos(), 0);
    let beyond = (i64::MAX as i128 + 1) * 1_000_000_000;
    assert_eq!(UniverseTime::from_nanos(beyond), None);
    assert!(UniverseTime::from_nanos(beyond - 1).is_some());
}

#[test]
fn instants_compare_by_their_nanoseconds() {
    let a = UniverseTime::new(1, 5).unwrap();
    let b = UniverseTime::new(1, 6).unwrap();
    assert!(a.is_before(&b) && !b.is_before(&a));
    assert!(a.is_at_or_before(&a) && a.same(&a) && !a.same(&b));
    assert_eq!(a.latest(b), b);
    assert_eq!(b.nanosecond_before(), Some(a));
    assert_eq!(UniverseTime::new(3, 0).unwrap().nanosecond_before(), UniverseTime::new(2, 999_999_999));
    let window = ClockWindow { start: a, end: b };
    assert!(window.contains(&a) && window.contains(&b));
    assert!(!window.contains(&UniverseTime::epoch()));
}
