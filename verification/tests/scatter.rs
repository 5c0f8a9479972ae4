use lib::fate::{BodyFate, BodyState, DestructionCause, Segment};
use lib::scatter::{first_unsettled, scatter, scatter_pair, survivors, Loss, Scattering};
use lib::time::{ClockWindow, UniverseTime};

fn second(s: i64) -> UniverseTime {
    UniverseTime::new(s, 0).unwrap()
}

#[test]
fn the_survivors_are_the_bodies_the_death_left_bound() {
    let window = ClockWindow { start: second(0), end: second(100) };
    let death = second(50);
    let mut kept = BodyFate::formed(window, second(1), 'a');
    assert!(kept.continue_from(death, 'b'));
    let untouched = BodyFate::formed(window, second(1), 'c');
    let mut unbound = BodyFate::formed(window, second(1), 'd');
    assert!(unbound.continue_from(death, 'e'));
    assert!(unbound.end_with(BodyState::Unbound { at: death }));
    let never = BodyFate::never_formed(window);
    let mut also = BodyFate::formed(window, second(2), 'f');
    assert!(also.continue_from(death, 'g'));
    let fates = vec![kept, untouched, unbound, never, also];
    assert_eq!(survivors(&fates, death), vec![0, 4]);
}

#[test]
fn the_walk_resolves_the_first_unsettled_pair_heavier_first() {
    let unsettled = vec![
        vec![false, false, false, false],
        vec![false, false, true, true],
        vec![false, false, false, true],
        vec![false, false, false, false],
    ];
    let no_heavier_second = vec![vec![false; 4]; 4];
    assert_eq!(first_unsettled(&unsettled, &no_heavier_second), Some((1, 2)));
    let mut heavier_second = no_heavier_second.clone();
    heavier_second[1][2] = true;
    assert_eq!(first_unsettled(&unsettled, &heavier_second), Some((2, 1)));
    let settled = vec![vec![false; 3]; 3];
    assert_eq!(first_unsettled(&settled, &no_heavier_second), None);
    // The lower triangle is never read: a pair is walked as its earlier body first.
    let lower = vec![vec![false, false], vec![true, false]];
    assert_eq!(first_unsettled(&lower, &no_heavier_second), None);
}

/// A body's elements in these tests: its semi-major axis, au, and its mass, Earth masses.
type Elements = (f64, f64);

/// Neighbours closer than a fifth of the inner's axis are unsettled.
fn too_close(a: Segment<Elements>, b: Segment<Elements>) -> bool {
    let (inner, outer) = if a.elements.0 < b.elements.0 { (a, b) } else { (b, a) };
    (outer.elements.0 - inner.elements.0) / inner.elements.0 < 0.2
}

fn second_heavier(a: Segment<Elements>, b: Segment<Elements>) -> bool {
    b.elements.1 > a.elements.1
}

/// A heavier body whose mass times axis reaches 40 ejects the lighter and recoils inward;
/// otherwise the two merge, keeping the mass and the mass-weighted inverse axis.
fn scattering(heavy: Segment<Elements>, light: Segment<Elements>, _: usize, _: u64) -> Scattering<Elements> {
    let (a, m) = heavy.elements;
    if m * a / 40.0 >= 1.0 {
        Scattering { ejection: true, elements: (a * 0.6, m), loss: None }
    } else {
        let (b, n) = light.elements;
        let mass = m + n;
        Scattering { ejection: false, elements: (mass / (m / a + n / b), mass), loss: None }
    }
}

fn survives(fate: &BodyFate<Elements>, at: UniverseTime) -> bool {
    fate.ending().is_none() && fate.last_segment().map(|s| s.start) == Some(at)
}

/// Six Earths packed from 20 au: every pair crosses after the death, the first mergers grow the
/// heavier body until it ejects, and each pass removes one body, until the survivors are
/// settled.
#[test]
fn a_packed_chain_takes_several_passes_and_ends_settled() {
    let window = ClockWindow { start: second(0), end: second(1_000) };
    let death = second(500);
    let mut fates: Vec<BodyFate<Elements>> = (0..6)
        .map(|k| {
            let k = f64::from(k);
            let elements = (20.0 * 1.08_f64.powf(k), 1.0 + 0.1 * k);
            let mut fate = BodyFate::formed(window, second(10), elements);
            assert!(fate.continue_from(death, elements));
            fate
        })
        .collect();
    let mut recoils = vec![0_u64; 6];
    let passes = scatter(&mut fates, &mut recoils, death, too_close, second_heavier, scattering);
    let removed = fates.iter().filter(|f| !survives(f, death)).count();
    assert!(passes >= 3, "{passes} passes");
    assert_eq!(passes, removed, "each pass removes one body");
    assert!(passes < fates.len());
    let kept: Vec<Segment<Elements>> = fates
        .iter()
        .filter(|f| survives(f, death))
        .map(|f| f.last_segment().unwrap())
        .collect();
    for (n, first) in kept.iter().enumerate() {
        for second in &kept[n + 1..] {
            assert!(!too_close(*first, *second));
        }
    }
    let collided = fates
        .iter()
        .filter(|f| {
            matches!(
                f.ending(),
                Some(BodyState::Destroyed { cause: DestructionCause::Collided, .. })
            )
        })
        .count();
    let ejected = fates
        .iter()
        .filter(|f| matches!(f.ending(), Some(BodyState::Unbound { .. })))
        .count();
    assert!(collided >= 1 && ejected >= 1, "{collided} collisions, {ejected} ejections");
    // Every ejection's survivor counts it.
    assert_eq!(recoils.iter().sum::<u64>(), ejected as u64);
    // The first pass merges the first Earth into the second, the heavier.
    assert_eq!(
        fates[0].ending(),
        Some(BodyState::Destroyed { cause: DestructionCause::Collided, at: death })
    );
    assert_eq!(fates[1].last_segment().unwrap().elements.1, 2.1);
}

#[test]
fn a_settled_system_takes_no_pass_and_a_lost_survivor_ends_at_the_death() {
    let window = ClockWindow { start: second(0), end: second(1_000) };
    let death = second(500);
    let make = |a: f64, m: f64| {
        let mut fate = BodyFate::formed(window, second(10), (a, m));
        assert!(fate.continue_from(death, (a, m)));
        fate
    };
    let mut apart = vec![make(1.0, 1.0), make(5.0, 300.0), BodyFate::never_formed(window)];
    let mut recoils = vec![0_u64; 3];
    assert_eq!(scatter(&mut apart, &mut recoils, death, too_close, second_heavier, scattering), 0);
    assert!(apart.iter().all(|f| f.ending().is_none()));
    // A pair whose heavier is disrupted by its own recoil: both bodies end at the death.
    let mut pair = vec![make(10.0, 1.0), make(10.5, 2.0)];
    let mut recoils = vec![0_u64; 2];
    let plunge = |heavy: Segment<Elements>, _: Segment<Elements>, _: usize, _: u64| Scattering {
        ejection: true,
        elements: heavy.elements,
        loss: Some(Loss::Disrupted),
    };
    assert_eq!(scatter(&mut pair, &mut recoils, death, too_close, second_heavier, plunge), 1);
    assert_eq!(pair[0].ending(), Some(BodyState::Unbound { at: death }));
    assert_eq!(
        pair[1].ending(),
        Some(BodyState::Destroyed { cause: DestructionCause::TidallyDisrupted, at: death })
    );
    assert_eq!(recoils, vec![0, 1]);
}

#[test]
fn one_pass_ends_the_lighter_and_gives_the_heavier_the_scattering() {
    let window = ClockWindow { start: second(0), end: second(1_000) };
    let death = second(500);
    let make = |a: f64, m: f64| {
        let mut fate = BodyFate::formed(window, second(10), (a, m));
        assert!(fate.continue_from(death, (a, m)));
        fate
    };
    // A collision: the lighter (slot 0) is destroyed, the heavier (slot 1) takes the merger.
    let mut fates = vec![make(10.0, 1.0), make(10.5, 2.0), make(30.0, 1.0)];
    let mut recoils = vec![0_u64; 3];
    let s = scatter_pair(&mut fates, &mut recoils, death, 1, 0, &scattering);
    assert!(!s.ejection);
    assert_eq!(fates[0].ending(), Some(BodyState::Destroyed { cause: DestructionCause::Collided, at: death }));
    assert_eq!(fates[0].last_segment().unwrap().elements, (10.0, 1.0));
    assert_eq!(fates[1].ending(), None);
    assert_eq!(fates[1].last_segment().unwrap().elements, s.elements);
    assert_eq!(fates[1].last_segment().unwrap().elements.1, 3.0);
    assert_eq!(fates[1].last_segment().unwrap().start, death);
    assert_eq!(fates[2].last_segment().unwrap().elements, (30.0, 1.0));
    assert_eq!(recoils, vec![0, 0, 0]);
    // An ejection: the lighter (slot 2) is unbound, the heavier recoils and counts it.
    let mut fates = vec![make(10.0, 1.0), make(30.0, 2.0), make(31.0, 1.5)];
    let mut recoils = vec![0_u64; 3];
    let s = scatter_pair(&mut fates, &mut recoils, death, 1, 2, &scattering);
    assert!(s.ejection);
    assert_eq!(fates[2].ending(), Some(BodyState::Unbound { at: death }));
    assert_eq!(fates[1].ending(), None);
    assert_eq!(fates[1].last_segment().unwrap().elements, (18.0, 2.0));
    assert_eq!(fates[0].ending(), None);
    assert_eq!(recoils, vec![0, 1, 0]);
}

struct Lcg(u64);

impl Lcg {
    fn next_f64(&mut self) -> f64 {
        self.0 = self.0.wrapping_mul(6_364_136_223_846_793_005).wrapping_add(1_442_695_040_888_963_407);
        (self.0 >> 11) as f64 / (1_u64 << 53) as f64
    }

    fn next_below(&mut self, n: u64) -> u64 {
        (self.next_f64() * n as f64) as u64
    }
}

/// Random crowded hosts: the step ends in at most n − 1 passes, leaves no pair unsettled, and
/// keeps the mass: what is present after it and what it ejected sum to what the death left bound.
#[test]
fn the_step_terminates_settles_every_pair_and_conserves_mass() {
    let window = ClockWindow { start: second(0), end: second(1_000) };
    let death = second(500);
    let mut lcg = Lcg(0x71);
    let (mut ejections, mut collisions) = (0, 0);
    for _ in 0..60 {
        let n = 2 + usize::try_from(lcg.next_below(9)).unwrap();
        let mut a = 12.0 + 20.0 * lcg.next_f64();
        let mut fates: Vec<BodyFate<Elements>> = (0..n)
            .map(|_| {
                a *= 1.02 + 0.3 * lcg.next_f64();
                let mass = 10f64.powf(-1.0 + 2.5 * lcg.next_f64());
                let mut fate = BodyFate::formed(window, second(10), (a, mass));
                assert!(fate.continue_from(death, (a, mass)));
                fate
            })
            .collect();
        let bound_before: f64 = fates.iter().map(|f| f.last_segment().unwrap().elements.1).sum();
        let mut recoils = vec![0_u64; n];
        let passes = scatter(&mut fates, &mut recoils, death, too_close, second_heavier, scattering);
        assert!(passes < n, "{passes} passes for {n} bodies");
        let mut after = 0.0;
        for fate in &fates {
            let mass = fate.last_segment().unwrap().elements.1;
            match fate.ending() {
                Some(BodyState::Unbound { .. }) => {
                    after += mass;
                    ejections += 1;
                }
                Some(BodyState::Destroyed { cause: DestructionCause::Collided, .. }) => collisions += 1,
                _ => after += mass,
            }
        }
        assert!(
            (after / bound_before - 1.0).abs() < 1e-12,
            "{after} M⊕ after against {bound_before} M⊕ before"
        );
        let kept: Vec<Segment<Elements>> = fates
            .iter()
            .filter(|f| survives(f, death))
            .map(|f| f.last_segment().unwrap())
            .collect();
        for (k, first) in kept.iter().enumerate() {
            for second in &kept[k + 1..] {
                assert!(!too_close(*first, *second));
            }
        }
    }
    assert!(ejections > 10 && collisions > 10, "{ejections} ejections, {collisions} collisions");
}

#[test]
fn the_step_is_deterministic_and_walks_in_slot_order() {
    let window = ClockWindow { start: second(0), end: second(1_000) };
    let death = second(500);
    let make = |a: f64, m: f64| {
        let mut fate = BodyFate::formed(window, second(10), (a, m));
        assert!(fate.continue_from(death, (a, m)));
        fate
    };
    let system = || vec![make(10.0, 1.0), make(30.0, 2.0), make(31.0, 1.5), make(10.5, 0.5)];
    let (mut first, mut second_run) = (system(), system());
    let (mut r1, mut r2) = (vec![0_u64; 4], vec![0_u64; 4]);
    let p1 = scatter(&mut first, &mut r1, death, too_close, second_heavier, scattering);
    let p2 = scatter(&mut second_run, &mut r2, death, too_close, second_heavier, scattering);
    assert_eq!(p1, p2);
    assert_eq!(r1, r2);
    for (a, b) in first.iter().zip(&second_run) {
        assert_eq!(a.ending(), b.ending());
        assert_eq!(a.last_segment(), b.last_segment());
    }
    // The walk meets the pair of slots 0 and 3 first, and merges the lighter, slot 3, into slot 0;
    // then it meets slots 1 and 2, and slot 1 ejects slot 2.
    assert_eq!(first[3].ending(), Some(BodyState::Destroyed { cause: DestructionCause::Collided, at: death }));
    assert_eq!(first[0].last_segment().unwrap().elements.1, 1.5);
    assert_eq!(first[2].ending(), Some(BodyState::Unbound { at: death }));
    assert_eq!(r1, vec![0, 1, 0, 0]);
    assert_eq!(p1, 2);
}
