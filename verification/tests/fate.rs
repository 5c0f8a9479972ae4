use lib::evolved::{BuildCircularisationError, Circularisation};
use lib::fate::{
    known_until, formation_time, state_at, stretch_end, sudden_deaths, Aftermath, BodyFate,
    BodyState, BuildFateBodyError, BuildFateHostError, DestructionCause, FateAt, FateBody,
    FateHost, Segment, StarDeath,
};
use lib::quantity::{Keyed, Quantity, Sign};
use lib::time::{ClockWindow, UniverseTime};
use lib::young::{BuildFormationError, Formation, FormationDraws, FormationKind};

fn at_seconds(s: i64) -> UniverseTime {
    UniverseTime::new(s, 0).expect("a whole second")
}

fn window() -> ClockWindow {
    ClockWindow { start: at_seconds(-1_000), end: at_seconds(1_000) }
}

fn measured(x: f64) -> Quantity<f64> {
    let sign = if x.is_nan() {
        Sign::NotANumber
    } else if x == f64::INFINITY {
        Sign::PositiveInfinity
    } else if x == f64::NEG_INFINITY {
        Sign::NegativeInfinity
    } else if x > 0.0 {
        Sign::Positive
    } else if x < 0.0 {
        Sign::Negative
    } else {
        Sign::Zero
    };
    Quantity { value: x, sign }
}

fn shown(x: f64) -> String {
    format!("{x}")
}

fn aged(star: &u8, years: f64) -> (&u8, Keyed<f64>) {
    (star, Keyed { value: years, key: years.to_bits() })
}

fn never_engulfed(_: Segment<u32>, _: UniverseTime) -> Option<UniverseTime> {
    None
}

fn never_explodes(_: Segment<u32>, _: UniverseTime, _: usize) -> Aftermath<u32> {
    Aftermath::Unbound
}

#[test]
fn a_body_that_never_forms_is_never_anything_else() {
    let fate: BodyFate<u32> = BodyFate::never_formed(window());
    for t in [-1_000, 0, 1_000] {
        let now = fate.at(at_seconds(t));
        assert_eq!(now.state(), BodyState::NotYetFormed);
        assert_eq!(now.valid_until(), None);
        assert_eq!(now.orbit(), None);
    }
    assert_eq!(fate.formed_at(), None);
    assert_eq!(fate.ending(), None);
}

#[test]
fn a_body_forms_then_steps_then_ends() {
    let mut fate = BodyFate::formed(window(), at_seconds(-500), 1_u32);
    // Before its formation it is not yet formed, until its formation.
    let early = fate.at(at_seconds(-600));
    assert_eq!(early.state(), BodyState::NotYetFormed);
    assert_eq!(early.valid_until(), Some(at_seconds(-500)));
    // A supernova at 100 s leaves it bound on new elements.
    assert!(fate.apply_aftermath(at_seconds(100), Aftermath::Bound(2)));
    let before = fate.at(at_seconds(99));
    assert_eq!(before.state(), BodyState::Present);
    assert_eq!(before.orbit(), Some(1));
    assert_eq!(before.valid_until(), Some(at_seconds(100)));
    let after = fate.at(at_seconds(100));
    assert_eq!(after.orbit(), Some(2));
    assert_eq!(after.valid_until(), None);
    // It is engulfed at 400 s, after which it is gone for good.
    assert!(fate.engulfed(at_seconds(400)));
    let gone = BodyState::Destroyed { cause: DestructionCause::Engulfed, at: at_seconds(400) };
    assert_eq!(fate.at(at_seconds(399)).valid_until(), Some(at_seconds(400)));
    for t in [400, 401, 1_000, 5_000] {
        let now = fate.at(at_seconds(t));
        assert_eq!(now.state(), gone);
        assert_eq!(now.orbit(), None);
        assert_eq!(now.valid_until(), None);
    }
    assert_eq!(fate.ending(), Some(gone));
    assert_eq!(gone.ended_at(), Some(at_seconds(400)));
    // A history that has ended takes nothing more.
    assert!(!fate.apply_aftermath(at_seconds(500), Aftermath::Unbound));
    assert!(!fate.engulfed(at_seconds(600)));
    assert_eq!(fate.ending(), Some(gone));
}

#[test]
fn a_change_beyond_the_window_is_not_promised() {
    let mut fate = BodyFate::formed(window(), at_seconds(0), 'a');
    assert!(fate.end_with(BodyState::Unbound { at: at_seconds(2_000) }));
    let now = fate.at(at_seconds(10));
    assert_eq!(now.state(), BodyState::Present);
    assert_eq!(now.valid_until(), None);
    assert_eq!(
        fate.at(at_seconds(2_000)).state(),
        BodyState::Unbound { at: at_seconds(2_000) }
    );
    let late = BodyFate::formed(window(), at_seconds(1_500), 'b');
    assert_eq!(late.at(at_seconds(0)).valid_until(), None);
}

#[test]
fn a_disruption_follows_its_plunge_until_the_pericentre() {
    let mut fate = BodyFate::formed(window(), at_seconds(0), 10_u8);
    let plunge = Aftermath::Disrupted { orbit: Some(11), at: at_seconds(300) };
    assert!(fate.apply_aftermath(at_seconds(200), plunge));
    assert_eq!(fate.at(at_seconds(250)).orbit(), Some(11));
    assert_eq!(
        fate.at(at_seconds(300)).state(),
        BodyState::Destroyed { cause: DestructionCause::TidallyDisrupted, at: at_seconds(300) }
    );
    // A disruption before the death, or a death before the last segment, is refused.
    let mut other = BodyFate::formed(window(), at_seconds(0), 10_u8);
    assert!(!other.apply_aftermath(
        at_seconds(200),
        Aftermath::Disrupted { orbit: None, at: at_seconds(100) }
    ));
    assert!(!other.apply_aftermath(at_seconds(-5), Aftermath::Bound(3)));
    assert!(!other.continue_from(at_seconds(-5), 3));
    assert_eq!(other.ending(), None);
    assert!(other.apply_aftermath(at_seconds(200), Aftermath::Unbound));
    assert_eq!(other.ending(), Some(BodyState::Unbound { at: at_seconds(200) }));
}

#[test]
fn states_only_move_forwards() {
    let mut fate = BodyFate::formed(window(), at_seconds(-100), ());
    assert!(fate.continue_from(at_seconds(0), ()));
    assert!(fate.end_with(BodyState::Unbound { at: at_seconds(50) }));
    let rank = |s: BodyState| match s {
        BodyState::NotYetFormed => 0,
        BodyState::Present => 1,
        BodyState::Destroyed { .. } | BodyState::Unbound { .. } => 2,
    };
    let mut last = 0;
    for t in -300..300 {
        let r = rank(fate.at(at_seconds(t)).state());
        assert!(r >= last);
        last = r;
    }
    assert_eq!(last, 2);
}

#[test]
fn the_orbit_of_a_present_body_is_replaced_and_others_keep_none() {
    let fate = BodyFate::formed(window(), at_seconds(0), 7_u16);
    let present = fate.at(at_seconds(1)).with_orbit("elements");
    assert_eq!(present.orbit(), Some("elements"));
    assert_eq!(present.state(), BodyState::Present);
    let unformed = fate.at(at_seconds(-1)).with_orbit("elements");
    assert_eq!(unformed.orbit(), None);
    assert_eq!(unformed.valid_until(), Some(at_seconds(0)));
}

#[test]
fn the_known_history_ends_at_the_last_death_or_the_window() {
    let end = at_seconds(1_000);
    assert_eq!(known_until(&vec![], end), end);
    assert_eq!(known_until(&vec![Some(at_seconds(5)), None], end), end);
    assert_eq!(
        known_until(&vec![Some(at_seconds(5)), Some(at_seconds(40)), Some(at_seconds(7))], end),
        at_seconds(40)
    );
}

#[test]
fn a_body_forms_only_before_every_death() {
    let deaths = vec![None, Some(at_seconds(100))];
    assert_eq!(formation_time(Some(at_seconds(99)), &deaths), Some(at_seconds(99)));
    assert_eq!(formation_time(Some(at_seconds(100)), &deaths), None);
    assert_eq!(formation_time(None, &deaths), None);
    assert_eq!(formation_time(Some(at_seconds(3)), &vec![]), Some(at_seconds(3)));
}

#[test]
fn sudden_deaths_come_in_time_then_star_order() {
    let death = |s: i64, sudden: bool| Some(StarDeath { at: at_seconds(s), sudden });
    let deaths = vec![death(30, true), death(10, false), None, death(20, true), death(20, true)];
    assert_eq!(
        sudden_deaths(&deaths),
        vec![(at_seconds(20), 3), (at_seconds(20), 4), (at_seconds(30), 0)]
    );
    assert!(sudden_deaths(&vec![None, death(5, false)]).is_empty());
}

#[test]
fn a_stretch_ends_a_nanosecond_before_the_next_death() {
    let next = UniverseTime::new(7, 0).unwrap();
    assert_eq!(stretch_end(Some(next), at_seconds(99)), UniverseTime::new(6, 999_999_999));
    assert_eq!(stretch_end(None, at_seconds(99)), Some(at_seconds(99)));
    let first = UniverseTime::new(i64::MIN, 0).unwrap();
    assert_eq!(stretch_end(Some(first), at_seconds(99)), None);
}

#[test]
fn a_fate_body_refuses_what_it_cannot_use() {
    let formation = formed_as(FormationKind::Small, 2.0, 31.6, 1.0);
    let good = FateBody::new(formation, "orbit", measured(1.0), measured(5_513.0)).expect("valid");
    assert_eq!(good.mass(), 1.0);
    assert_eq!(good.density(), 5_513.0);
    assert_eq!(*good.orbit(), "orbit");
    assert_eq!(good.formation().kind(), FormationKind::Small);
    assert_eq!(good.circularisation().timescale(), None);
    assert_eq!(
        FateBody::new(formation, "orbit", measured(f64::NAN), measured(5_513.0)).map(|_| ()).map_err(|e| match e {
            BuildFateBodyError::MassNotPositive(m) => m.is_nan(),
            BuildFateBodyError::DensityNotPositive(_) => false,
        }),
        Err(true)
    );
    assert_eq!(
        FateBody::new(formation, "orbit", measured(1.0), measured(0.0)).map(|_| ()),
        Err(BuildFateBodyError::DensityNotPositive(0.0))
    );
    let tidal = Circularisation::new(measured(1e8)).expect("positive");
    let circularising = good.with_circularisation(tidal);
    assert_eq!(circularising.circularisation().timescale(), Some(1e8));
    assert_eq!(circularising.mass(), 1.0);
}

#[test]
fn a_circularisation_needs_a_timescale_above_zero() {
    assert_eq!(Circularisation::<f64>::none().timescale(), None);
    assert_eq!(
        Circularisation::new(measured(0.0)),
        Err(BuildCircularisationError::TimescaleNotPositive(0.0))
    );
    assert_eq!(
        Circularisation::new(measured(-1.0)),
        Err(BuildCircularisationError::TimescaleNotPositive(-1.0))
    );
    assert_eq!(
        Circularisation::new(measured(f64::INFINITY)).map(|c| c.timescale()),
        Ok(Some(f64::INFINITY))
    );
    assert!(Circularisation::new(measured(f64::NAN)).is_err());
}

#[test]
fn a_formation_checks_its_mass_then_its_disc() {
    assert_eq!(
        Formation::check(measured(0.0), measured(2.0)),
        Err(BuildFormationError::MassNotPositive(0.0))
    );
    assert_eq!(
        Formation::check(measured(1.0), measured(-2.0)),
        Err(BuildFormationError::LifetimeNotPositive(-2.0))
    );
    assert_eq!(Formation::check(measured(1.0), measured(2.0)), Ok(()));
    let giant = formed_as(FormationKind::Giant, 1.2, 31.6, 300.0);
    assert_eq!((giant.kind(), giant.formed_at(), giant.molten_until()), (FormationKind::Giant, 1.2, 31.6));
}

#[test]
fn a_host_of_one_star_has_that_star_alone() {
    let sun = "the sun";
    let host = FateHost::star(&sun);
    assert_eq!(host.members().len(), 1);
    assert_eq!(*host.members()[0], "the sun");
}

#[test]
fn every_body_of_a_system_not_yet_born_is_not_yet_formed() {
    // A star born after the epoch, whose planet's formation age falls beyond the clock.
    let deaths = vec![None];
    for t in [window().start, UniverseTime::epoch(), window().end] {
        let now = state_at(window(), None, &deaths, 1_u32, never_engulfed, never_explodes, t);
        assert_eq!(now.state(), BodyState::NotYetFormed);
        assert_eq!(now.valid_until(), None);
        assert_eq!(now.orbit(), None);
    }
}

#[test]
fn the_transform_is_deterministic_and_independent_of_query_order() {
    // A sun that becomes a white dwarf at 500 s, slowly; its inner planets are engulfed at
    // 300 s as it grows, and the rest survive.
    let deaths = vec![Some(StarDeath { at: at_seconds(500), sudden: false })];
    let engulfment = |segment: Segment<u32>, end: UniverseTime| {
        if segment.elements < 5 && at_seconds(300) <= end {
            Some(at_seconds(300))
        } else {
            None
        }
    };
    let times: Vec<UniverseTime> = (-1_000..=1_000).step_by(50).map(at_seconds).collect();
    for elements in [2_u32, 7] {
        let formed = Some(at_seconds(-800));
        let forward: Vec<FateAt<u32>> = times
            .iter()
            .map(|t| state_at(window(), formed, &deaths, elements, engulfment, never_explodes, *t))
            .collect();
        let fate = BodyFate::resolve(window(), formed, &deaths, elements, engulfment, never_explodes);
        let backward: Vec<FateAt<u32>> = times.iter().rev().map(|t| fate.at(*t)).collect();
        assert!(forward.iter().eq(backward.iter().rev()));
        assert_eq!(
            BodyFate::resolve(window(), formed, &deaths, elements, engulfment, never_explodes),
            fate
        );
    }
}

#[test]
fn errors_name_what_was_wrong() {
    assert_eq!(
        BuildFateBodyError::MassNotPositive(0.0).message(shown),
        "body mass 0 M_earth is not finite and positive"
    );
    assert_eq!(
        BuildFateBodyError::DensityNotPositive(-1.0).message(shown),
        "body density -1 kg/m^3 is not finite and positive"
    );
    assert_eq!(BuildFateHostError::<f64>::NoStars.message(shown), "a host has no stars");
    assert_eq!(
        BuildFateHostError::NotCoeval { first: 1.0, other: 2.0 }.message(shown),
        "host stars aged 1 yr and 2 yr at the epoch are not coeval"
    );
    let formation = formed_as(FormationKind::Small, 2.0, 31.6, 1.0);
    assert_eq!(
        FateBody::new(formation, "orbit", measured(f64::NAN), measured(5_513.0))
            .map(|_| ())
            .map_err(|e| e.message(shown)),
        Err("body mass NaN M_earth is not finite and positive".to_owned())
    );
    assert_eq!(
        FateBody::new(formation, "orbit", measured(1.0), measured(0.0)).map(|_| ()),
        Err(BuildFateBodyError::DensityNotPositive(0.0))
    );
}

#[test]
fn a_circumbinary_host_needs_coeval_stars() {
    let (a, b, c, d) = (1_u8, 2_u8, 3_u8, 4_u8);
    let host = FateHost::stars(vec![aged(&a, 13.5e9), aged(&b, 13.5e9)]).expect("coeval");
    assert_eq!(host.members().len(), 2);
    assert_eq!((*host.members()[0], *host.members()[1]), (1, 2));
    assert_eq!(
        FateHost::stars(vec![aged(&a, 13.5e9), aged(&b, 13.5e9), aged(&c, 1e9), aged(&d, 2e9)]),
        Err(BuildFateHostError::NotCoeval { first: 13.5e9, other: 1e9 })
    );
    assert_eq!(FateHost::<u8>::stars::<f64>(vec![]), Err(BuildFateHostError::NoStars));
}

#[test]
fn a_supernova_steps_the_orbit_and_the_next_ends_the_body() {
    // Two stars: the first explodes at 100 s, leaving the body on new elements; the second at
    // 400 s, unbinding it.
    let deaths = vec![
        Some(StarDeath { at: at_seconds(100), sudden: true }),
        Some(StarDeath { at: at_seconds(400), sudden: true }),
    ];
    let explode = |segment: Segment<u32>, _: UniverseTime, star: usize| {
        if star == 0 {
            Aftermath::Bound(segment.elements + 10)
        } else {
            Aftermath::Unbound
        }
    };
    let fate = BodyFate::resolve(window(), Some(at_seconds(0)), &deaths, 1_u32, never_engulfed, explode);
    assert_eq!(fate.formed_at(), Some(at_seconds(0)));
    assert_eq!(fate.ending(), Some(BodyState::Unbound { at: at_seconds(400) }));
    let before = fate.at(at_seconds(99));
    assert_eq!((before.orbit(), before.valid_until()), (Some(1), Some(at_seconds(100))));
    let after = fate.at(at_seconds(100));
    assert_eq!((after.orbit(), after.valid_until()), (Some(11), Some(at_seconds(400))));
    assert_eq!(
        after.body_orbit().map(|o| (o.elements(), o.valid_until())),
        Some((11, Some(at_seconds(400))))
    );
    assert_eq!(fate.at(at_seconds(400)).body_orbit(), None);
    // A body whose formation comes at a death never forms.
    let late = BodyFate::resolve(window(), Some(at_seconds(100)), &deaths, 1_u32, never_engulfed, explode);
    assert_eq!(late.formed_at(), None);
}

#[test]
fn an_engulfment_before_a_supernova_ends_the_walk() {
    let deaths = vec![Some(StarDeath { at: at_seconds(600), sudden: true })];
    let engulfment = |_: Segment<u32>, end: UniverseTime| {
        if at_seconds(200) <= end {
            Some(at_seconds(200))
        } else {
            None
        }
    };
    let explode = |_: Segment<u32>, _: UniverseTime, _: usize| Aftermath::Bound(99);
    let fate = BodyFate::resolve(window(), Some(at_seconds(0)), &deaths, 3_u32, engulfment, explode);
    assert_eq!(
        fate.ending(),
        Some(BodyState::Destroyed { cause: DestructionCause::Engulfed, at: at_seconds(200) })
    );
    assert_eq!(fate.at(at_seconds(700)).orbit(), None);
    // Engulfed only after the stretch before the death: the death comes first.
    let slow = |_: Segment<u32>, end: UniverseTime| {
        if at_seconds(800) <= end {
            Some(at_seconds(800))
        } else {
            None
        }
    };
    let fate = BodyFate::resolve(window(), Some(at_seconds(0)), &deaths, 3_u32, slow, explode);
    assert_eq!(fate.at(at_seconds(650)).orbit(), Some(99));
    // Every star has died by 600 s, so the known history ends there, before 800 s.
    assert_eq!(fate.ending(), None);
}

#[test]
fn a_body_formed_after_the_window_about_a_living_star_has_no_history_yet() {
    let deaths = vec![None];
    let explode = |_: Segment<u32>, _: UniverseTime, _: usize| Aftermath::Unbound;
    let engulfment = |_: Segment<u32>, _: UniverseTime| Some(at_seconds(1_600));
    let fate = BodyFate::resolve(window(), Some(at_seconds(1_500)), &deaths, 4_u32, engulfment, explode);
    assert_eq!(fate.formed_at(), Some(at_seconds(1_500)));
    assert_eq!(fate.ending(), None);
    assert_eq!(fate.at(at_seconds(2_000)).orbit(), Some(4));
}

#[test]
fn every_sudden_death_of_a_surviving_body_starts_a_segment() {
    let death = |s: i64| Some(StarDeath { at: at_seconds(s), sudden: true });
    let deaths = vec![death(300), None, death(100), death(200)];
    let explode = |segment: Segment<u32>, _: UniverseTime, star: usize| {
        Aftermath::Bound(segment.elements * 10 + star as u32)
    };
    let fate = BodyFate::resolve(window(), Some(at_seconds(0)), &deaths, 1_u32, never_engulfed, explode);
    assert_eq!(fate.ending(), None);
    let orbits: Vec<Option<u32>> = [50, 150, 250, 350].iter().map(|t| fate.at(at_seconds(*t)).orbit()).collect();
    assert_eq!(orbits, vec![Some(1), Some(12), Some(123), Some(1230)]);
    assert_eq!(fate.at(at_seconds(150)).valid_until(), Some(at_seconds(200)));
}

/// The formation of a planet of `mass` whose disc lives 2 Myr, with the formation model giving
/// `kind`, `formed_at` and `molten_until`.
fn formed_as(kind: FormationKind, formed_at: f64, molten_until: f64, mass: f64) -> Formation<f64> {
    let draws = FormationDraws { giant: 0.5, magma_ocean: 0.5 };
    Formation::from_draws(measured(mass), measured(2.0), &draws, |_: f64, _: f64, _: &FormationDraws<f64>| {
        (kind, formed_at, molten_until)
    })
    .unwrap()
}

/// A small linear congruential generator for the sampled tests.
struct Lcg(u64);

impl Lcg {
    fn next(&mut self) -> u64 {
        self.0 = self.0.wrapping_mul(6_364_136_223_846_793_005).wrapping_add(1_442_695_040_888_963_407);
        self.0 >> 33
    }

    fn below(&mut self, n: u64) -> u64 {
        self.next() % n
    }
}

fn rank(state: BodyState) -> u8 {
    match state {
        BodyState::NotYetFormed => 0,
        BodyState::Present => 1,
        BodyState::Destroyed { .. } | BodyState::Unbound { .. } => 2,
    }
}

/// A stand-in engulfment model: a body on elements below 30 is engulfed 120 s into any stretch
/// that lasts that long.
fn engulfed_when_close(segment: Segment<u32>, end: UniverseTime) -> Option<UniverseTime> {
    let at = UniverseTime::from_nanos(segment.start.nanos() + 120_000_000_000)?;
    (segment.elements < 30 && at <= end).then_some(at)
}

/// A stand-in supernova: by the elements, the body is unbound, stays bound farther out, or is
/// disrupted at once.
fn explodes_by_elements(segment: Segment<u32>, death: UniverseTime, _: usize) -> Aftermath<u32> {
    match segment.elements % 4 {
        0 | 1 => Aftermath::Unbound,
        2 => Aftermath::Bound(segment.elements + 7),
        _ => Aftermath::Disrupted { orbit: None, at: death },
    }
}

#[test]
fn state_sequences_are_prefixes_of_formed_present_gone() {
    let mut lcg = Lcg(0x28);
    let mut endings = [0_u32; 3];
    let hosts = [
        vec![None],
        vec![Some(StarDeath { at: at_seconds(300), sudden: true })],
        vec![
            Some(StarDeath { at: at_seconds(100), sudden: true }),
            Some(StarDeath { at: at_seconds(500), sudden: true }),
        ],
        vec![Some(StarDeath { at: at_seconds(400), sudden: false })],
    ];
    let times: Vec<UniverseTime> = (-20..=20).map(|k| at_seconds(50 * k)).collect();
    for deaths in &hosts {
        for _ in 0..40 {
            let formation = at_seconds(-900 + lcg.below(900) as i64);
            let elements = lcg.below(100) as u32;
            let fate = BodyFate::resolve(
                window(),
                Some(formation),
                deaths,
                elements,
                engulfed_when_close,
                explodes_by_elements,
            );
            let mut last = BodyState::NotYetFormed;
            for &t in &times {
                let now = fate.at(t);
                let state = now.state();
                assert!(rank(state) >= rank(last), "{last:?} then {state:?} at {t:?}");
                if rank(last) == 2 {
                    assert_eq!(state, last, "a body that is gone stays gone");
                }
                if let Some(at) = state.ended_at() {
                    assert!(at <= t, "ended at {at:?} but asked at {t:?}");
                }
                assert_eq!(now.orbit().is_some(), state == BodyState::Present);
                last = state;
            }
            match fate.ending() {
                Some(BodyState::Destroyed { cause: DestructionCause::Engulfed, .. }) => endings[0] += 1,
                Some(BodyState::Unbound { .. }) => endings[1] += 1,
                Some(_) => endings[2] += 1,
                None => {}
            }
        }
    }
    assert!(endings[0] > 20 && endings[1] > 20, "endings {endings:?}");
}

#[test]
fn a_body_forms_at_its_formation_age() {
    // A body whose formation age falls 500 s after the epoch, about a star that never dies in
    // the window.
    let deaths = vec![None];
    let formed_at = at_seconds(500);
    let fate = BodyFate::resolve(window(), Some(formed_at), &deaths, 7_u32, never_engulfed, never_explodes);
    let formed = fate.formed_at().expect("forms");
    assert_eq!(formed, formed_at);
    assert!(UniverseTime::epoch() < formed && formed <= window().end);
    let now = fate.at(UniverseTime::epoch());
    assert_eq!(now.state(), BodyState::NotYetFormed);
    assert_eq!(now.valid_until(), Some(formed));
    let just_before = formed.nanosecond_before().expect("on the clock");
    assert_eq!(fate.at(just_before).state(), BodyState::NotYetFormed);
    let born = fate.at(formed);
    assert_eq!(born.state(), BodyState::Present);
    assert_eq!(born.valid_until(), None);
    assert_eq!(born.orbit(), Some(7));
    let early = state_at(window(), Some(at_seconds(-10)), &deaths, 9_u32, never_engulfed, never_explodes, UniverseTime::epoch());
    assert_eq!(early.state(), BodyState::Present);
}

#[test]
fn a_death_in_the_window_is_when_the_orbit_holds_until() {
    let death = StarDeath { at: at_seconds(500), sudden: true };
    let deaths = vec![Some(death)];
    let stays = |segment: Segment<u32>, _: UniverseTime, _: usize| Aftermath::Bound(segment.elements * 2);
    assert!(death.at > UniverseTime::epoch());
    let now = state_at(window(), Some(at_seconds(-300)), &deaths, 400_u32, never_engulfed, stays, UniverseTime::epoch());
    assert_eq!(now.valid_until(), Some(death.at));
    assert_eq!(now.body_orbit().expect("present").valid_until(), Some(death.at));
    assert_eq!(
        state_at(window(), Some(at_seconds(-300)), &deaths, 400_u32, never_engulfed, stays, death.at).valid_until(),
        None
    );
}
