use asteroid_sim::components::{AngularVelocity, Body, Kind, Mass, Orbit, Velocity};
use asteroid_sim::systems::{
    advance, collide_asteroids, collide_asteroids_with_planet, despawn_off_screen_asteroid,
    gravity, place_asteroid, rotate_body, spawn_asteroid, spawn_moon, spawn_planet, step,
    update_orbits, update_velocities, SpawnDraw,
};
use asteroid_sim::world::{
    World, ASTEROID_ANGULAR_SPEED, ASTEROID_MASS, ASTEROID_RADIUS, ASTEROID_SPEED, COORD_LIMIT,
    PLANET_ANGULAR_SPEED,
};

const W: i64 = 1_175_000_000;
const H: i64 = 800_000_000;
const PX: i64 = W / 2;
const PY: i64 = H / 2;

fn world() -> World {
    spawn_planet(W, H).unwrap()
}

fn add(world: &mut World, x: i64, y: i64, vx: i64, vy: i64) -> u64 {
    let id = world.next_id;
    world.bodies.push(Body {
        id,
        kind: Kind::Asteroid { orbit: Orbit { r_min: 0, r_max: 0 } },
        x,
        y,
        rotation: 0,
        velocity: Velocity { x: vx, y: vy },
        spin: AngularVelocity { velocity: 0 },
        mass: Mass { mass: ASTEROID_MASS },
    });
    world.next_id += 1;
    id
}

fn add_moon(world: &mut World, x: i64, y: i64) -> u64 {
    let id = add(world, x, y, 0, 0);
    let last = world.bodies.len() - 1;
    world.bodies[last].kind = Kind::Moon;
    id
}

fn ids(world: &World) -> Vec<u64> {
    world.bodies.iter().map(|b| b.id).collect()
}

#[test]
fn planet_needs_a_usable_region() {
    assert!(spawn_planet(0, H).is_none());
    assert!(spawn_planet(W, -1).is_none());
    let w = world();
    assert_eq!((w.planet.x, w.planet.y), (PX, PY));
    assert_eq!(w.planet.kind, Kind::Planet);
    assert_eq!(w.planet.spin.velocity, PLANET_ANGULAR_SPEED);
    assert!(w.bodies.is_empty());
    assert_eq!(w.asteroid_count(), 0);
}

#[test]
fn collision_passes_remove_each_body_once() {
    let mut w = world();
    add(&mut w, PX + 50_000_000, PY, 0, 0);
    add(&mut w, PX + 50_000_000, PY + 15_000_000, 0, 0);
    let far = add(&mut w, PX + 300_000_000, PY, 0, 0);
    collide_asteroids_with_planet(&mut w);
    assert_eq!(ids(&w), vec![far]);
    collide_asteroids(&mut w);
    assert_eq!(ids(&w), vec![far]);
    collide_asteroids_with_planet(&mut w);
    collide_asteroids(&mut w);
    assert_eq!(ids(&w), vec![far]);
}

#[test]
fn pair_pass_removes_every_satellite_in_a_collision() {
    let mut w = world();
    add(&mut w, PX - 300_000_000, PY, 0, 0);
    add(&mut w, PX - 285_000_000, PY, 0, 0);
    add(&mut w, PX - 315_000_000, PY, 0, 0);
    let far = add(&mut w, PX + 300_000_000, PY, 0, 0);
    collide_asteroids(&mut w);
    assert_eq!(ids(&w), vec![far]);
}

#[test]
fn pair_pass_ignores_moons() {
    let mut w = world();
    let s = add(&mut w, PX - 300_000_000, PY, 0, 0);
    let m = add_moon(&mut w, PX - 300_000_000, PY);
    collide_asteroids(&mut w);
    assert_eq!(ids(&w), vec![s, m]);
}

#[test]
fn boundary_removes_satellites_beyond_their_radius() {
    let mut w = world();
    add(&mut w, W + ASTEROID_RADIUS + 10_000, PY, 0, 0);
    let inside = add(&mut w, W + ASTEROID_RADIUS - 10_000, PY, 0, 0);
    add(&mut w, PX, -ASTEROID_RADIUS - 1, 0, 0);
    let edge = add(&mut w, PX, H + ASTEROID_RADIUS, 0, 0);
    let moon = add_moon(&mut w, W + 2 * ASTEROID_RADIUS, PY);
    despawn_off_screen_asteroid(&mut w);
    assert_eq!(ids(&w), vec![inside, edge, moon]);
}

#[test]
fn gravity_accelerates_satellites_toward_the_planet() {
    let mut w = world();
    add(&mut w, PX - 400_000_000, PY, 0, 0);
    add(&mut w, PX, PY + 400_000_000, 10, 0);
    add_moon(&mut w, PX - 400_000_000, PY);
    add(&mut w, PX, PY, 7, 7);
    gravity(&mut w, 16);
    assert_eq!(w.bodies[0].velocity, Velocity { x: 79 * 16, y: 0 });
    assert_eq!(w.bodies[1].velocity, Velocity { x: 10, y: -79 * 16 });
    assert_eq!(w.bodies[2].velocity, Velocity { x: 0, y: 0 });
    assert_eq!(w.bodies[3].velocity, Velocity { x: 7, y: 7 });
}

#[test]
fn motion_and_rotation_follow_velocity() {
    let mut w = world();
    add(&mut w, 1_000, 2_000, 1_000, -500);
    w.bodies[0].spin = AngularVelocity { velocity: 20 };
    update_velocities(&mut w, 16);
    assert_eq!((w.bodies[0].x, w.bodies[0].y), (17_000, -6_000));
    assert_eq!((w.planet.x, w.planet.y), (PX, PY));
    rotate_body(&mut w, 16);
    assert_eq!(w.bodies[0].rotation, 320);
    assert_eq!(w.planet.rotation, PLANET_ANGULAR_SPEED * 16);
}

fn orbit_of(b: &Body) -> Orbit {
    match b.kind {
        Kind::Asteroid { orbit } => orbit,
        _ => panic!("not a satellite"),
    }
}

#[test]
fn orbit_bounds_follow_observed_distances() {
    let mut w = world();
    // beyond half the region's height, less the radius: still unobserved
    add(&mut w, PX + 395_000_000, PY, 0, 0);
    update_orbits(&mut w);
    assert_eq!(orbit_of(&w.bodies[0]), Orbit { r_min: 0, r_max: 0 });
    w.bodies[0].x = PX + 50_000_000;
    update_orbits(&mut w);
    assert_eq!(orbit_of(&w.bodies[0]), Orbit { r_min: 0, r_max: 0 });
    w.bodies[0].x = PX + 200_000_000;
    update_orbits(&mut w);
    assert_eq!(orbit_of(&w.bodies[0]), Orbit { r_min: 200_000_000, r_max: 200_000_000 });
    w.bodies[0].x = PX + 250_000_000;
    update_orbits(&mut w);
    assert_eq!(orbit_of(&w.bodies[0]), Orbit { r_min: 200_000_000, r_max: 250_000_000 });
    w.bodies[0].x = PX + 150_000_000;
    update_orbits(&mut w);
    assert_eq!(orbit_of(&w.bodies[0]), Orbit { r_min: 150_000_000, r_max: 250_000_000 });
    // inside the collision distance, and beyond half the region's height
    w.bodies[0].x = PX + 50_000_000;
    update_orbits(&mut w);
    w.bodies[0].x = PX + 395_000_000;
    update_orbits(&mut w);
    assert_eq!(orbit_of(&w.bodies[0]), Orbit { r_min: 150_000_000, r_max: 250_000_000 });
}

#[test]
fn elliptical_satellite_becomes_a_moon() {
    let mut w = world();
    add(&mut w, PX + 200_000_000, PY, 0, 0);
    let circular = add(&mut w, PX - 200_000_000, PY, 0, 0);
    w.bodies[0].kind = Kind::Asteroid { orbit: Orbit { r_min: 150_000_000, r_max: 250_000_000 } };
    w.bodies[1].kind = Kind::Asteroid { orbit: Orbit { r_min: 200_000_000, r_max: 200_000_000 } };
    let before = w.bodies[0];
    let next = w.next_id;
    spawn_moon(&mut w);
    assert_eq!(w.bodies.len(), 2);
    assert_eq!(w.bodies[0], Body { id: next, kind: Kind::Moon, ..before });
    assert_eq!(w.bodies[1].id, circular);
    assert_eq!(w.next_id, next + 1);
    assert_eq!(w.moon_count(), 1);
    assert_eq!(w.asteroid_count(), 1);
}

#[test]
fn one_interval_spawns_one_satellite() {
    let mut w = world();
    for _ in 0..9 {
        step(&mut w, 100);
    }
    assert_eq!(w.asteroid_count(), 0);
    step(&mut w, 100);
    assert_eq!(w.asteroid_count(), 1);
    assert_eq!(w.moon_count(), 0);
    assert!(w.timer.finished);
}

#[test]
fn satellite_orbit_ends_in_one_moon() {
    let mut w = world();
    // starts beyond the tracked band, moving toward the planet
    add(&mut w, PX - 500_000_000, PY, 50_000, 0);
    advance(&mut w, 16);
    assert_eq!(w.asteroid_count(), 1);
    assert_eq!(orbit_of(&w.bodies[0]), Orbit { r_min: 0, r_max: 0 });
    let mut ticks = 0;
    while orbit_of(&w.bodies[0]).r_min == 0 {
        assert!(PX - w.bodies[0].x >= H / 2 - ASTEROID_RADIUS);
        advance(&mut w, 16);
        assert_eq!(w.asteroid_count(), 1);
        assert_eq!(w.moon_count(), 0);
        ticks += 1;
        assert!(ticks < 1000);
    }
    let first = orbit_of(&w.bodies[0]);
    assert!(first.r_min > 0 && first.r_min == first.r_max);
    assert!(first.r_min < H / 2 - ASTEROID_RADIUS);

    // the second tick, stage by stage, up to the capture
    gravity(&mut w, 16);
    update_velocities(&mut w, 16);
    rotate_body(&mut w, 16);
    collide_asteroids_with_planet(&mut w);
    collide_asteroids(&mut w);
    despawn_off_screen_asteroid(&mut w);
    update_orbits(&mut w);
    let satellite = w.bodies[0];
    assert!(orbit_of(&satellite).r_min < first.r_min);
    assert!(orbit_of(&satellite).is_elliptical());
    spawn_moon(&mut w);
    assert_eq!(w.asteroid_count(), 0);
    assert_eq!(w.moon_count(), 1);
    let moon = w.bodies[0];
    assert_eq!(moon.kind, Kind::Moon);
    assert_ne!(moon.id, satellite.id);
    assert_eq!((moon.x, moon.y, moon.rotation), (satellite.x, satellite.y, satellite.rotation));
    assert_eq!(moon.velocity, satellite.velocity);
    assert_eq!(moon.spin, satellite.spin);
    assert_eq!(moon.mass, satellite.mass);

    // a moon feels no gravity and is never removed at the boundary
    let v = moon.velocity;
    advance(&mut w, 16);
    assert_eq!(w.bodies[0].velocity, v);
    assert_eq!(w.moon_count(), 1);
}

#[test]
fn spawn_waits_for_the_timer() {
    let mut w = world();
    spawn_asteroid(&mut w);
    assert!(w.bodies.is_empty());
    w.timer.finished = true;
    spawn_asteroid(&mut w);
    assert_eq!(w.bodies.len(), 1);
    let b = w.bodies[0];
    assert_eq!(b.id, 1);
    assert_eq!(orbit_of(&b), Orbit { r_min: 0, r_max: 0 });
    assert_eq!(b.mass, Mass { mass: ASTEROID_MASS });
    let on_side = (b.x == 0 || b.x == W) && 0 <= b.y && b.y < H;
    let on_end = (b.y == 0 || b.y == H) && 0 <= b.x && b.x < W;
    assert!(on_side || on_end);
    assert!(-ASTEROID_SPEED <= b.velocity.x && b.velocity.x < ASTEROID_SPEED);
    assert!(-ASTEROID_SPEED <= b.velocity.y && b.velocity.y < ASTEROID_SPEED);
    assert!(b.spin.velocity.abs() < ASTEROID_ANGULAR_SPEED);
}

#[test]
fn place_asteroid_uses_the_draw() {
    let mut w = world();
    let draw = SpawnDraw {
        side_edge: true,
        far_edge: true,
        along: 5,
        velocity: Velocity { x: -3, y: 4 },
        spin: -7,
    };
    place_asteroid(&mut w, draw);
    let draw = SpawnDraw { side_edge: false, far_edge: false, along: 9, ..draw };
    place_asteroid(&mut w, draw);
    assert_eq!((w.bodies[0].x, w.bodies[0].y), (W, 5));
    assert_eq!((w.bodies[1].x, w.bodies[1].y), (9, 0));
    assert_eq!(w.bodies[0].velocity, Velocity { x: -3, y: 4 });
    assert_eq!(w.bodies[0].spin.velocity, -7);
    assert_eq!(ids(&w), vec![1, 2]);
    assert_eq!(w.next_id, 3);
}

#[test]
fn can_step_rejects_values_past_the_limits() {
    let mut w = world();
    add(&mut w, PX, PY, 0, 0);
    assert!(w.can_step());
    w.bodies[0].x = COORD_LIMIT + 1;
    assert!(!w.can_step());
}

#[test]
fn gravity_change_is_the_same_for_any_mass() {
    let mut w = world();
    add(&mut w, PX - 300_000_000, PY + 100_000_000, 5, -5);
    add(&mut w, PX - 300_000_000, PY + 100_000_000, -7, 9);
    w.bodies[1].mass = Mass { mass: 1_000 * ASTEROID_MASS };
    gravity(&mut w, 16);
    let d0 = (w.bodies[0].velocity.x - 5, w.bodies[0].velocity.y + 5);
    let d1 = (w.bodies[1].velocity.x + 7, w.bodies[1].velocity.y - 9);
    assert_eq!(d0, d1);
    assert!(d0.0 > 0 && d0.1 < 0);
}
