use lib::composition::{RadiusAdjustment, SnowLineSide};
use lib::composition::SolveCompositionError;
use lib::composition::{check_composition_inputs, check_radius_window_inputs};
use lib::derive::{check_formed, BodyHosts};
use lib::derive::{
    BuildBodyHostsError, BuildPlacedBodyError, DeriveBodyCause, DeriveBodyError, PlacedBody,
    PlanetClass,
};
use lib::evolved::BuildCircularisationError;
use lib::habitable_zone::{HabitableLimit, HabitableZone};
use lib::halo::{HaloHost, Scatterer};
use lib::irradiation::{BuildHostLightError, HostLight, Illumination};
use lib::limits::{BuildTidalPlanetError, OrbitSense, TidalPlanet};
use lib::quantity::{Quantity, Sign};
use lib::radius::{BuildCoreCompositionError, CoreComposition, DeriveGiantError, MassRadiusClass};

fn value(x: f64) -> Quantity<f64> {
    let sign = if x.is_nan() {
        Sign::NotANumber
    } else if x.is_infinite() {
        if x > 0.0 { Sign::PositiveInfinity } else { Sign::NegativeInfinity }
    } else if x > 0.0 {
        Sign::Positive
    } else if x < 0.0 {
        Sign::Negative
    } else {
        Sign::Zero
    };
    Quantity { value: x, sign }
}

#[test]
fn a_host_light_names_the_first_value_it_refuses() {
    let sun = HostLight::new(value(1.0), value(5_772.0), value(1.0)).expect("the Sun");
    assert_eq!((sun.luminosity(), sun.effective_temperature(), sun.radius()), (1.0, 5_772.0, 1.0));
    assert!(HostLight::new(value(0.0), value(0.0), value(0.0)).is_ok());
    assert_eq!(
        HostLight::new(value(-1.0), value(f64::NAN), value(1.0)),
        Err(BuildHostLightError::LuminosityNotValid)
    );
    assert_eq!(
        HostLight::new(value(1.0), value(f64::INFINITY), value(1.0)),
        Err(BuildHostLightError::TemperatureNotValid)
    );
    assert_eq!(
        HostLight::new(value(1.0), value(5_000.0), value(-0.5)),
        Err(BuildHostLightError::RadiusNotValid)
    );
    assert_eq!(
        HostLight::new(value(1.0), value(5_000.0), value(0.0)),
        Err(BuildHostLightError::LuminousWithoutSurface)
    );
    assert_eq!(
        BuildHostLightError::LuminousWithoutSurface.message(),
        "a luminous host must have a radius and a temperature"
    );
}

#[test]
fn a_placed_body_keeps_its_orbits_apart() {
    let body = PlacedBody::new(value(1.0), 'p', value(1.5e11), 0.5).expect("valid");
    assert_eq!((*body.orbit(), *body.orbit_now()), ('p', 'p'));
    let moved = body.with_orbit_now('n');
    assert_eq!((*moved.orbit(), *moved.orbit_now()), ('p', 'n'));
    assert_eq!((moved.mass(), moved.formation_distance(), moved.radius_rank()), (1.0, 1.5e11, 0.5));
    assert_eq!(
        PlacedBody::new(value(0.0), 'p', value(f64::NAN), 0.5),
        Err(BuildPlacedBodyError::MassNotPositive)
    );
    assert_eq!(
        PlacedBody::new(value(2.0), 'p', value(f64::INFINITY), 0.5),
        Err(BuildPlacedBodyError::FormationDistanceNotPositive)
    );
}

#[test]
fn every_constant_message_starts_lower_case_without_a_full_stop() {
    let texts = [
        BuildPlacedBodyError::MassNotPositive.message(),
        BuildPlacedBodyError::FormationDistanceNotPositive.message(),
        BuildBodyHostsError::PrimaryMassNotPositive.message(),
        BuildBodyHostsError::NoOrbitedHost.message(),
        BuildHostLightError::LuminosityNotValid.message(),
        BuildHostLightError::TemperatureNotValid.message(),
        BuildHostLightError::RadiusNotValid.message(),
        BuildTidalPlanetError::MassNotPositive.message(),
        BuildTidalPlanetError::RadiusNotPositive.message(),
        BuildTidalPlanetError::LoveNumberNotPositive.message(),
        BuildTidalPlanetError::TidalQNotPositive.message(),
        BuildCoreCompositionError::CoreMassFractionOutOfRange.message(),
        BuildCoreCompositionError::WaterFractionOutOfRange.message(),
    ];
    for text in texts {
        assert!(text.starts_with('a') && !text.ends_with('.'), "{text}");
    }
    assert_eq!(BuildBodyHostsError::NoOrbitedHost.message(), "a body must orbit at least one host");
}

#[test]
fn giants_have_no_surface() {
    assert!(PlanetClass::Rocky.has_surface());
    assert!(PlanetClass::Icy.has_surface());
    assert!(PlanetClass::SubNeptune.has_surface());
    assert!(!PlanetClass::IceGiant.has_surface());
    assert!(!PlanetClass::GasGiant.has_surface());
}

#[test]
fn a_system_scatters_if_any_host_does() {
    assert_eq!(Scatterer::Absent.or(Scatterer::Absent), Scatterer::Absent);
    assert_eq!(Scatterer::Absent.or(Scatterer::Present), Scatterer::Present);
    assert_eq!(Scatterer::Present.or(Scatterer::Absent), Scatterer::Present);
    assert_eq!(Scatterer::Present.or(Scatterer::Present), Scatterer::Present);
}

#[test]
fn a_zone_reads_its_limits_from_the_star_outwards() {
    let zone = HabitableZone::from_limits([0.75, 0.98, 0.99, 1.69, 1.77], false);
    assert_eq!(zone.limit(HabitableLimit::RunawayGreenhouse), 0.98);
    assert_eq!(zone.recent_venus(), 0.75);
    assert_eq!(zone.runaway_greenhouse(), 0.98);
    assert_eq!(zone.moist_greenhouse(), 0.99);
    assert_eq!(zone.maximum_greenhouse(), 1.69);
    assert_eq!(zone.early_mars(), 1.77);
    assert_eq!(zone.conservative(), (0.99, 1.69));
    assert_eq!(zone.optimistic(), (0.75, 1.77));
    assert!(!zone.extrapolated());
    let all = HabitableLimit::all();
    for (i, limit) in all.iter().enumerate() {
        assert_eq!(zone.limit(*limit), [0.75, 0.98, 0.99, 1.69, 1.77][i]);
    }
    assert!(all.windows(2).all(|w| w[0] < w[1]));
}

#[test]
fn the_kinds_order_as_declared() {
    assert!(SnowLineSide::Inside < SnowLineSide::Beyond);
    assert!(RadiusAdjustment::Unchanged < RadiusAdjustment::ClampedToEnvelopeLimit);
    assert!(MassRadiusClass::Terran < MassRadiusClass::Stellar);
    assert!(OrbitSense::Prograde < OrbitSense::Retrograde);
}

fn shown(x: f64) -> String {
    format!("{x}")
}

#[test]
fn messages_name_the_values_they_refuse() {
    assert_eq!(
        BuildCircularisationError::TimescaleNotPositive(0.0).message(shown),
        "circularisation timescale 0 yr is not positive"
    );
    assert_eq!(
        SolveCompositionError::GiantPlanet { mass: 400.0 }.message(shown),
        "a body of 400 earth masses is a giant, whose composition is not solved here"
    );
    assert_eq!(
        SolveCompositionError::<f64>::FluxNotValid.message(shown),
        "a body's flux must be finite and not negative"
    );
    assert_eq!(
        DeriveGiantError::MassOutsideGiants(5_000.0).message(shown),
        "a mass of 5000 earth masses is outside the giant planets' 0.3 to 13 Jupiter masses"
    );
    assert_eq!(
        DeriveGiantError::FluxNotValid(-1.0).message(shown),
        "a flux of -1 earth fluxes is negative or not finite"
    );
    assert_eq!(
        DeriveBodyError::<f64, ()>::NotYetFormed { age: -2e6 }.message(shown),
        "a body of a system aged -2000000 years has not formed"
    );
    assert_eq!(
        DeriveBodyError::<f64, ()>::GiantCooling(()).message(shown),
        "a giant's cooling could not be evaluated"
    );
}

#[test]
fn a_derivation_error_keeps_what_refused() {
    let from_solve: DeriveBodyError<f64, ()> = SolveCompositionError::RadiusNotPositive.into();
    assert_eq!(from_solve, DeriveBodyError::Composition(SolveCompositionError::RadiusNotPositive));
    assert_eq!(from_solve.message(shown), "the composition solve refused its inputs");
    let from_giant: DeriveBodyError<f64, ()> = DeriveGiantError::FluxNotValid(f64::INFINITY).into();
    assert_eq!(from_giant, DeriveBodyError::Giant(DeriveGiantError::FluxNotValid(f64::INFINITY)));
    assert_eq!(from_giant.message(shown), "a giant's radius or composition could not be derived");
    assert_eq!(
        from_giant.source(),
        Some(DeriveBodyCause::Giant(DeriveGiantError::FluxNotValid(f64::INFINITY)))
    );
    assert_eq!(DeriveBodyError::<f64, u8>::GiantCooling(3).source(), Some(DeriveBodyCause::GiantCooling(3)));
    assert_eq!(DeriveBodyError::<f64, u8>::NotYetFormed { age: 0.0 }.source(), None);
}

#[test]
fn a_halo_host_keeps_what_it_was_given() {
    let sun = HaloHost::new(value(1.0), value(32.2), value(2.08e19), None);
    assert_eq!((sun.mass(), sun.disc_solids(), sun.strip_radius(), sun.companion()), (1.0, 32.2, 2.08e19, None));
    let bound = HaloHost::new(value(0.5), value(0.0), value(1e15), Some(value(3e14)));
    assert_eq!(bound.companion(), Some(3e14));
}

fn q(value: f64, sign: Sign) -> Quantity<f64> {
    Quantity { value, sign }
}

#[test]
fn the_composition_checks_come_in_order() {
    let earth = q(1.0, Sign::Positive);
    assert_eq!(check_composition_inputs(earth, Sign::Positive, Sign::Zero, false), Ok(()));
    assert_eq!(
        check_composition_inputs(q(f64::NAN, Sign::NotANumber), Sign::Negative, Sign::Negative, true),
        Err(SolveCompositionError::MassNotPositive)
    );
    assert_eq!(
        check_composition_inputs(earth, Sign::Zero, Sign::Negative, true),
        Err(SolveCompositionError::RadiusNotPositive)
    );
    assert_eq!(
        check_composition_inputs(earth, Sign::PositiveInfinity, Sign::Zero, false),
        Err(SolveCompositionError::RadiusNotPositive)
    );
    assert_eq!(
        check_composition_inputs(earth, Sign::Positive, Sign::Negative, true),
        Err(SolveCompositionError::FluxNotValid)
    );
    assert_eq!(
        check_composition_inputs(q(400.0, Sign::Positive), Sign::Positive, Sign::Positive, true),
        Err(SolveCompositionError::GiantPlanet { mass: 400.0 })
    );
}

#[test]
fn the_radius_window_checks_come_in_order() {
    let earth = q(1.0, Sign::Positive);
    assert_eq!(check_radius_window_inputs(earth, Sign::Positive, false), Ok(()));
    assert_eq!(
        check_radius_window_inputs(q(0.0, Sign::Zero), Sign::NotANumber, true),
        Err(SolveCompositionError::MassNotPositive)
    );
    assert_eq!(
        check_radius_window_inputs(earth, Sign::PositiveInfinity, true),
        Err(SolveCompositionError::FluxNotValid)
    );
    assert_eq!(
        check_radius_window_inputs(q(500.0, Sign::Positive), Sign::Zero, true),
        Err(SolveCompositionError::GiantPlanet { mass: 500.0 })
    );
}

#[test]
fn a_system_not_yet_born_has_formed_nothing() {
    assert_eq!(check_formed::<f64, ()>(q(4.6e9, Sign::Positive)), Ok(()));
    assert_eq!(
        check_formed::<f64, ()>(q(-2.0e6, Sign::Negative)),
        Err(DeriveBodyError::NotYetFormed { age: -2.0e6 })
    );
    assert_eq!(
        check_formed::<f64, ()>(q(0.0, Sign::Zero)),
        Err(DeriveBodyError::NotYetFormed { age: 0.0 })
    );
    assert!(check_formed::<f64, ()>(q(f64::NAN, Sign::NotANumber)).is_err());
}

#[test]
fn a_tidal_planet_refuses_its_inputs_in_order() {
    let jupiter = TidalPlanet::new(q(1.9e27, Sign::Positive), q(7.0e7, Sign::Positive), q(0.5, Sign::Positive), q(1e5, Sign::Positive)).unwrap();
    assert_eq!((jupiter.mass(), jupiter.radius(), jupiter.love_number(), jupiter.tidal_q()), (1.9e27, 7.0e7, 0.5, 1e5));
    let good = q(1.0, Sign::Positive);
    assert_eq!(TidalPlanet::new(q(0.0, Sign::Zero), q(-1.0, Sign::Negative), good, good), Err(BuildTidalPlanetError::MassNotPositive));
    assert_eq!(TidalPlanet::new(good, q(f64::INFINITY, Sign::PositiveInfinity), good, good), Err(BuildTidalPlanetError::RadiusNotPositive));
    assert_eq!(TidalPlanet::new(good, good, q(f64::NAN, Sign::NotANumber), good), Err(BuildTidalPlanetError::LoveNumberNotPositive));
    assert_eq!(TidalPlanet::new(good, good, good, q(-5.0, Sign::Negative)), Err(BuildTidalPlanetError::TidalQNotPositive));
}

#[test]
fn a_core_composition_lies_in_zero_to_one() {
    let earth = CoreComposition::new(q(0.325, Sign::Positive), Sign::Positive, q(0.0, Sign::Zero), Sign::Positive).unwrap();
    assert_eq!((earth.core_mass_fraction(), earth.water_fraction()), (0.325, 0.0));
    // Pure iron and pure water are in range: one less each is zero.
    assert!(CoreComposition::new(q(1.0, Sign::Positive), Sign::Zero, q(1.0, Sign::Positive), Sign::Zero).is_ok());
    assert_eq!(
        CoreComposition::new(q(1.5, Sign::Positive), Sign::Negative, q(2.0, Sign::Positive), Sign::Negative),
        Err(BuildCoreCompositionError::CoreMassFractionOutOfRange)
    );
    assert_eq!(
        CoreComposition::new(q(f64::NAN, Sign::NotANumber), Sign::NotANumber, q(0.5, Sign::Positive), Sign::Positive),
        Err(BuildCoreCompositionError::CoreMassFractionOutOfRange)
    );
    assert_eq!(
        CoreComposition::new(q(0.3, Sign::Positive), Sign::Positive, q(-0.1, Sign::Negative), Sign::Positive),
        Err(BuildCoreCompositionError::WaterFractionOutOfRange)
    );
}

#[test]
fn an_illumination_needs_a_bound_orbit() {
    let sun = HostLight::new(q(1.0, Sign::Positive), q(5772.0, Sign::Positive), q(6.957e8, Sign::Positive)).unwrap();
    let earth = Illumination::new(sun, q(1.496e11, Sign::Positive), q(0.0167, Sign::Positive), Sign::Positive).unwrap();
    assert_eq!(*earth.host(), sun);
    assert_eq!((earth.semi_major_axis(), earth.eccentricity()), (1.496e11, 0.0167));
    assert!(Illumination::new(sun, q(1.0, Sign::Positive), q(0.0, Sign::Zero), Sign::Positive).is_some());
    assert!(Illumination::new(sun, q(0.0, Sign::Zero), q(0.1, Sign::Positive), Sign::Positive).is_none());
    assert!(Illumination::new(sun, q(1.0, Sign::Positive), q(1.0, Sign::Positive), Sign::Zero).is_none());
    assert!(Illumination::new(sun, q(1.0, Sign::Positive), q(-0.1, Sign::Negative), Sign::Positive).is_none());
}

#[test]
fn body_hosts_need_a_primary_mass_and_an_orbited_host() {
    let sun = HostLight::new(q(1.0, Sign::Positive), q(5772.0, Sign::Positive), q(6.957e8, Sign::Positive)).unwrap();
    let orbited = [sun];
    let companions = [Illumination::new(sun, q(1e13, Sign::Positive), q(0.5, Sign::Positive), Sign::Positive).unwrap()];
    let hosts = BodyHosts::new(q(2e30, Sign::Positive), 'z', &orbited, &companions).unwrap();
    assert_eq!((hosts.primary_mass(), hosts.composition()), (2e30, 'z'));
    assert_eq!(hosts.orbited().len(), 1);
    assert_eq!(hosts.companions().len(), 1);
    assert_eq!(
        BodyHosts::new(q(0.0, Sign::Zero), 'z', &[], &companions).map(|h| h.primary_mass()),
        Err(BuildBodyHostsError::PrimaryMassNotPositive)
    );
    assert_eq!(
        BodyHosts::new(q(2e30, Sign::Positive), 'z', &[], &companions).map(|h| h.primary_mass()),
        Err(BuildBodyHostsError::NoOrbitedHost)
    );
}
