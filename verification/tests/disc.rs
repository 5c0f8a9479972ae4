use lib::disc::{BuildDiscHostError, DiscHost, Truncation};
use lib::quantity::{Quantity, Sign};

/// A value with its class, as a measurement hands it over.
fn measured(x: f64) -> Quantity<f64> {
    let sign = if x.is_nan() {
        Sign::NotANumber
    } else if x == f64::INFINITY {
        Sign::PositiveInfinity
    } else if x == f64::NEG_INFINITY {
        Sign::NegativeInfinity
    } else if x > 0.0 {
        Sign::Positive
    } else if x < 0.0 {
        Sign::Negative
    } else {
        Sign::Zero
    };
    Quantity { value: x, sign }
}

#[test]
fn hosts_are_validated_once() {
    let ok = (measured(1.0), measured(0.0), measured(1.0), measured(1.0));
    assert!(DiscHost::new(ok.0, ok.1, ok.2, ok.3).is_ok());
    assert_eq!(
        DiscHost::new(measured(-1.0), ok.1, ok.2, ok.3),
        Err(BuildDiscHostError::MassNotPositive)
    );
    assert_eq!(
        DiscHost::new(ok.0, measured(f64::NAN), ok.2, ok.3),
        Err(BuildDiscHostError::MetallicityNotFinite)
    );
    assert_eq!(
        DiscHost::new(ok.0, ok.1, measured(0.0), ok.3),
        Err(BuildDiscHostError::LuminosityNotPositive)
    );
    assert_eq!(
        DiscHost::new(ok.0, ok.1, ok.2, measured(f64::INFINITY)),
        Err(BuildDiscHostError::RadiusNotPositive)
    );
    for e in [
        BuildDiscHostError::MassNotPositive,
        BuildDiscHostError::MetallicityNotFinite,
        BuildDiscHostError::LuminosityNotPositive,
        BuildDiscHostError::RadiusNotPositive,
    ] {
        let text = e.message();
        assert!(text.starts_with('a') && !text.ends_with('.'), "{text}");
    }
}

#[test]
fn a_disc_host_keeps_what_it_was_given() {
    let host = DiscHost::new(measured(0.8), measured(-0.3), measured(0.4), measured(0.75))
        .expect("a valid host");
    assert_eq!(host.mass(), 0.8);
    assert_eq!(host.fe_h(), -0.3);
    assert_eq!(host.zams_luminosity(), 0.4);
    assert_eq!(host.zams_radius(), 0.75);
    assert_eq!(
        BuildDiscHostError::MetallicityNotFinite.message(),
        "a disc host's [Fe/H] must be finite"
    );
}

#[test]
fn a_truncation_keeps_each_radius_it_is_given() {
    let none: Truncation<f64> = Truncation::none();
    assert_eq!((none.inner(), none.outer()), (None, None));
    let cut = none.with_inner(0.1).with_outer(30.0);
    assert_eq!((cut.inner(), cut.outer()), (Some(0.1), Some(30.0)));
    let recut = cut.with_inner(0.5);
    assert_eq!((recut.inner(), recut.outer()), (Some(0.5), Some(30.0)));
}
