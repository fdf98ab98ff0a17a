use asteroid_sim::components::Orbit;
use asteroid_sim::traits::Between;

#[test]
fn eccentricity_is_correct() {
    // Arrange
    let orbit = Orbit { r_min: 3, r_max: 5 };

    // Act
    let eccentricity = orbit.eccentricity();

    // Assert
    assert_eq!(eccentricity.num as f64 / eccentricity.den as f64, 0.25);
}

#[test]
fn is_elliptical_is_correct() {
    // Arrange
    let circular = Orbit { r_min: 10, r_max: 10 };
    let elliptical = Orbit { r_min: 3, r_max: 5 };

    let parabolic = Orbit { r_min: 0, r_max: 10 };

    // Act
    let circular_not_elliptical = !circular.is_elliptical();
    let elliptical = elliptical.is_elliptical();
    let parabolic_not_elliptical = !parabolic.is_elliptical();

    // Assert
    assert!(circular_not_elliptical);
    assert!(elliptical);
    assert!(parabolic_not_elliptical);
}

#[test]
fn eccentricity_fraction_is_exact() {
    let e = Orbit { r_min: 3, r_max: 5 }.eccentricity();
    assert_eq!((e.num, e.den), (2, 8));
    let e = Orbit { r_min: 0, r_max: 10 }.eccentricity();
    assert_eq!((e.num, e.den), (10, 10));
}

#[test]
fn unobserved_orbit_is_not_elliptical() {
    assert!(!Orbit { r_min: 0, r_max: 0 }.is_elliptical());
    assert!(!Orbit { r_min: 5, r_max: 3 }.is_elliptical());
}

#[test]
fn test_between_f32() {
    assert!(42i64.between(41, 43));
    assert!(!42i64.between(43, 44));
    assert!(!42i64.between(43, 41));
    assert!(!42i64.between(42, 43));
    assert!(!42i64.between(41, 42));
}

#[test]
fn defaults_are_zero() {
    assert_eq!(Orbit::default(), Orbit { r_min: 0, r_max: 0 });
    assert_eq!(asteroid_sim::components::Mass::default().mass, 0);
}
