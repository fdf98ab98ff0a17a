use asteroid_sim::physics::{acceleration, axis_pull, isqrt, G_DEN, G_NUM};
use asteroid_sim::resources::{tick_asteroid_spawn_timer, AsteroidSpawnTimer};
use asteroid_sim::world::{ASTEROID_MASS, PLANET_MASS};

#[test]
fn gravity_does_not_depend_on_satellite_mass() {
    let d2: u128 = 400_000_000 * 400_000_000;
    let light = acceleration(PLANET_MASS, ASTEROID_MASS, d2);
    let heavy = acceleration(PLANET_MASS, 1_000 * ASTEROID_MASS, d2);
    let unit = acceleration(PLANET_MASS, 1, d2);
    assert_eq!(light, heavy);
    assert_eq!(light, unit);
    assert_eq!(light, G_NUM * PLANET_MASS as u128 / (G_DEN * d2));
    assert_eq!(light, 79);
}

#[test]
fn gravity_falls_with_the_square_of_distance() {
    let near = acceleration(PLANET_MASS, ASTEROID_MASS, 100_000_000 * 100_000_000);
    let far = acceleration(PLANET_MASS, ASTEROID_MASS, 200_000_000 * 200_000_000);
    assert_eq!(near, 1267);
    assert_eq!(far, 316);
}

#[test]
fn isqrt_rounds_down() {
    assert_eq!(isqrt(0), 0);
    assert_eq!(isqrt(1), 1);
    assert_eq!(isqrt(15), 3);
    assert_eq!(isqrt(16), 4);
    assert_eq!(isqrt(160_000_000_000_000_000), 400_000_000);
    assert_eq!(isqrt(u128::MAX), u64::MAX as u128);
}

#[test]
fn axis_pull_points_toward_the_primary() {
    assert_eq!(axis_pull(79, 3, 16, 5), 3792 / 5);
    assert_eq!(axis_pull(79, -3, 16, 5), -(3792 / 5));
    assert_eq!(axis_pull(79, 0, 16, 5), 0);
    assert_eq!(axis_pull(79, 5, 16, 5), 79 * 16);
}

#[test]
fn timer_fires_once_per_interval() {
    let mut t = AsteroidSpawnTimer::default();
    assert_eq!(t.duration, 1000);
    tick_asteroid_spawn_timer(&mut t, 999);
    assert!(!t.finished);
    assert_eq!(t.elapsed, 999);
    tick_asteroid_spawn_timer(&mut t, 1);
    assert!(t.finished);
    assert_eq!(t.elapsed, 0);
    tick_asteroid_spawn_timer(&mut t, 10);
    assert!(!t.finished);
    tick_asteroid_spawn_timer(&mut t, 2500);
    assert!(t.finished);
    assert_eq!(t.elapsed, 510);
}
