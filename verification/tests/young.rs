use lib::quantity::{Quantity, Sign};
use lib::young::{BuildFormationError, Formation, FormationDraws, FormationKind};

fn measured(x: f64) -> Quantity<f64> {
    let sign = if x.is_nan() {
        Sign::NotANumber
    } else if x == f64::INFINITY {
        Sign::PositiveInfinity
    } else if x == f64::NEG_INFINITY {
        Sign::NegativeInfinity
    } else if x > 0.0 {
        Sign::Positive
    } else if x < 0.0 {
        Sign::Negative
    } else {
        Sign::Zero
    };
    Quantity { value: x, sign }
}

fn shown(x: f64) -> String {
    format!("{x}")
}

const MEDIAN: FormationDraws<f64> = FormationDraws { giant: 0.5, magma_ocean: 0.5 };

/// A small planet's ages: at its disc's lifetime, its magma ocean ending at 10^(1 + u) Myr and
/// no earlier.
fn small_planet(_: f64, lifetime: f64, draws: &FormationDraws<f64>) -> (FormationKind, f64, f64) {
    (FormationKind::Small, lifetime, 10f64.powf(1.0 + draws.magma_ocean).max(lifetime))
}

#[test]
fn a_formation_refuses_what_it_cannot_use() {
    let draws = MEDIAN;
    assert_eq!(
        Formation::from_draws(measured(0.0), measured(2.0), &draws, small_planet),
        Err(BuildFormationError::MassNotPositive(0.0))
    );
    assert_eq!(
        Formation::from_draws(measured(1.0), measured(f64::NAN), &draws, small_planet)
            .map_err(|e| e.message(shown)),
        Err("disc lifetime NaN Myr is not finite and positive".to_owned())
    );
    assert_eq!(
        BuildFormationError::MassNotPositive(-1.0).message(shown),
        "planet mass -1 M_earth is not finite and positive"
    );
}

#[test]
fn a_valid_formation_is_the_model_s() {
    let earth = Formation::from_draws(measured(1.0), measured(3.0), &MEDIAN, small_planet)
        .expect("valid");
    assert_eq!(earth.kind(), FormationKind::Small);
    assert_eq!(earth.formed_at(), 3.0);
    assert!((earth.molten_until() - 1000.0_f64.sqrt()).abs() < 1e-9);
    // The model is asked only once the inputs are found valid.
    let refused = Formation::from_draws(measured(-1.0), measured(3.0), &MEDIAN, |_, _, _| {
        panic!("the model is not asked of a refused planet")
    });
    assert_eq!(refused, Err(BuildFormationError::MassNotPositive(-1.0)));
}
