//! The stages of one simulation tick, and the tick itself.
use vstd::prelude::*;

use crate::components::{AngularVelocity, Body, Kind, Mass, Orbit, Velocity};
use crate::physics::{
    acceleration, accel, axis_pull, dist2, floor_sqrt, isqrt, lemma_acceleration_independent_of_mass,
    pull, G_DEN, G_NUM, MASS_LIMIT,
};
use crate::random::{random_below, random_flag};
use crate::resources::{tick_asteroid_spawn_timer, AsteroidSpawnTimer};
use crate::traits::Between;
use crate::world::{
    abs_le, body_dist2, body_fits, body_placed, body_turn_fits, body_wf, distance_squared,
    keep_placed, keep_wf, lemma_without_marked_len, planet_of, remove_marked, without_marked,
    World, ASTEROID_ANGULAR_SPEED, ASTEROID_HIT_DIST2, ASTEROID_MASS, ASTEROID_RADIUS,
    ASTEROID_SPEED, COORD_LIMIT, MAX_DT, MIN_GRAVITY_DIST2, PLACE_LIMIT, PLANET_ANGULAR_SPEED,
    PLANET_HIT_DIST2, PLANET_MASS, PLANET_RADIUS, REGION_LIMIT,
};

verus! {

/// Create the world for a region of the given size, with the primary at its
/// centre and no satellites. Refuses a region without usable size.
pub fn spawn_planet(width: i64, height: i64) -> (r: Option<World>)
    ensures
        r is None <==> !(0 < width <= REGION_LIMIT && 0 < height <= REGION_LIMIT),
        r matches Some(w) ==> {
            &&& w.wf()
            &&& w.fits(COORD_LIMIT as int)
            &&& w.width == width
            &&& w.height == height
            &&& w.planet == planet_of(width as int, height as int, 0, 0)
            &&& w.bodies@.len() == 0
            &&& w.next_id == 1
            &&& w.timer == AsteroidSpawnTimer::new_spec()
        },
{
    if !(0 < width && width <= REGION_LIMIT && 0 < height && height <= REGION_LIMIT) {
        return None;
    }
    let planet = Body {
        id: 0,
        kind: Kind::Planet,
        x: width / 2,
        y: height / 2,
        rotation: 0,
        velocity: Velocity { x: 0, y: 0 },
        spin: AngularVelocity { velocity: PLANET_ANGULAR_SPEED },
        mass: Mass { mass: PLANET_MASS },
    };
    let timer = AsteroidSpawnTimer::default();
    Some(World { width, height, planet, bodies: Vec::new(), next_id: 1, timer })
}

proof fn lemma_hit_distances()
    ensures
        PLANET_HIT_DIST2 == (PLANET_RADIUS + ASTEROID_RADIUS) * (PLANET_RADIUS + ASTEROID_RADIUS),
        ASTEROID_HIT_DIST2 == (ASTEROID_RADIUS + ASTEROID_RADIUS) * (ASTEROID_RADIUS
            + ASTEROID_RADIUS),
{
}

/// The satellite intersects the primary.
pub open spec fn hits_planet(planet: Body, b: Body) -> bool {
    let reach = PLANET_RADIUS + ASTEROID_RADIUS;
    b.is_asteroid() && body_dist2(planet, b) <= reach * reach
}

/// Remove every satellite that intersects the primary.
pub fn collide_asteroids_with_planet(world: &mut World)
    requires
        old(world).wf(),
        old(world).placed(),
    ensures
        final(world).wf(),
        final(world).placed(),
        final(world).same_frame(*old(world)),
        final(world).bodies@ == without_marked(
            old(world).bodies@,
            Seq::new(
                old(world).bodies@.len(),
                |i: int| hits_planet(old(world).planet, old(world).bodies@[i]),
            ),
        ),
{
    let ghost s = world.bodies@;
    let mut marks: Vec<bool> = Vec::new();
    let mut i: usize = 0;
    while i < world.bodies.len()
        invariant
            world.bodies@ == s,
            world.wf(),
            world.placed(),
            0 <= i <= s.len(),
            marks@ =~= Seq::new(i as nat, |k: int| hits_planet(world.planet, s[k])),
        decreases s.len() - i,
    {
        let b = world.bodies[i];
        proof {
            assert(body_placed(s[i as int]));
            assert(body_placed(world.planet));
        }
        let hit = match b.kind {
            Kind::Asteroid { .. } => {
                distance_squared(&world.planet, &b) <= PLANET_HIT_DIST2
            },
            _ => false,
        };
        marks.push(hit);
        i = i + 1;
    }
    let ghost old_world = *world;
    remove_marked(&mut world.bodies, &marks);
    proof {
        keep_wf(s, marks@, old_world.next_id as int, old_world.planet.id);
        keep_placed(s, marks@);
    }
}

/// Satellites `i` and `j` of `s` are distinct and intersect.
pub open spec fn collides(s: Seq<Body>, i: int, j: int) -> bool {
    &&& i != j
    &&& s[i].is_asteroid()
    &&& s[j].is_asteroid()
    &&& body_dist2(s[i], s[j]) <= (ASTEROID_RADIUS + ASTEROID_RADIUS) * (ASTEROID_RADIUS
        + ASTEROID_RADIUS)
}

/// Satellite `i` of `s` intersects some other satellite of `s`.
pub open spec fn in_collision(s: Seq<Body>, i: int) -> bool {
    exists|j: int| 0 <= j < s.len() && #[trigger] collides(s, i, j)
}

/// The unordered pair `{k, l}` comes before the pair `{i, j}` (with
/// `i < j`) in the order in which the pair pass examines pairs.
pub open spec fn pair_seen(k: int, l: int, i: int, j: int) -> bool {
    let lo = if k < l {
        k
    } else {
        l
    };
    let hi = if k < l {
        l
    } else {
        k
    };
    lo < i || (lo == i && hi < j)
}

/// Satellite `k` of `s` intersects another in a pair seen before `{i, j}`.
pub open spec fn marked_before(s: Seq<Body>, k: int, i: int, j: int) -> bool {
    exists|l: int| 0 <= l < s.len() && #[trigger] collides(s, k, l) && pair_seen(k, l, i, j)
}

proof fn lemma_collides_symmetric(s: Seq<Body>, k: int, l: int)
    ensures
        collides(s, k, l) == collides(s, l, k),
{
    assert(body_dist2(s[k], s[l]) == body_dist2(s[l], s[k])) by (nonlinear_arith);
}

/// Remove every satellite that intersects another satellite. Each unordered
/// pair is examined once; removals are marked during the pass and applied at
/// its end, so a satellite is removed once however many others it intersects.
pub fn collide_asteroids(world: &mut World)
    requires
        old(world).wf(),
        old(world).placed(),
    ensures
        final(world).wf(),
        final(world).placed(),
        final(world).same_frame(*old(world)),
        final(world).bodies@ == without_marked(
            old(world).bodies@,
            Seq::new(old(world).bodies@.len(), |i: int| in_collision(old(world).bodies@, i)),
        ),
{
    let ghost s = world.bodies@;
    let n = world.bodies.len();
    let mut marks: Vec<bool> = Vec::new();
    while marks.len() < n
        invariant
            marks@.len() <= n,
            forall|k: int| 0 <= k < marks@.len() ==> !#[trigger] marks@[k],
        decreases n - marks@.len(),
    {
        marks.push(false);
    }
    let mut i: usize = 0;
    while i < n
        invariant
            world.bodies@ == s,
            world.wf(),
            world.placed(),
            n == s.len(),
            marks@.len() == n,
            0 <= i <= n,
            forall|k: int| 0 <= k < n ==> #[trigger] marks@[k] == marked_before(s, k, i as int, i + 1),
        decreases n - i,
    {
        let a = world.bodies[i];
        let mut j: usize = i + 1;
        proof {
            assert forall|k: int| 0 <= k < n implies #[trigger] marks@[k] == marked_before(
                s,
                k,
                i as int,
                j as int,
            ) by {}
        }
        while j < n
            invariant
                world.bodies@ == s,
                world.wf(),
                world.placed(),
                n == s.len(),
                marks@.len() == n,
                0 <= i < n,
                i < j <= n,
                a == s[i as int],
                forall|k: int| 0 <= k < n ==> #[trigger] marks@[k] == marked_before(s, k, i as int, j as int),
            decreases n - j,
        {
            let b = world.bodies[j];
            proof {
                assert(body_placed(s[i as int]));
                assert(body_placed(s[j as int]));
            }
            let hit = matches!(a.kind, Kind::Asteroid { .. }) && matches!(b.kind, Kind::Asteroid { .. })
                && distance_squared(&a, &b) <= ASTEROID_HIT_DIST2;
            let ghost before = marks@;
            if hit {
                marks.set(i, true);
                marks.set(j, true);
            }
            proof {
                lemma_hit_distances();
                assert(hit == collides(s, i as int, j as int));
                lemma_collides_symmetric(s, i as int, j as int);
                assert forall|k: int| 0 <= k < n implies #[trigger] marks@[k] == marked_before(
                    s,
                    k,
                    i as int,
                    j + 1,
                ) by {
                    if marked_before(s, k, i as int, j + 1) && !before[k] {
                        let l = choose|l: int|
                            0 <= l < s.len() && #[trigger] collides(s, k, l) && pair_seen(
                                k,
                                l,
                                i as int,
                                j + 1,
                            );
                        assert(!pair_seen(k, l, i as int, j as int));
                    }
                    if hit && k == i {
                        assert(collides(s, k, j as int) && pair_seen(k, j as int, i as int, j + 1));
                    }
                    if hit && k == j {
                        assert(collides(s, k, i as int) && pair_seen(k, i as int, i as int, j + 1));
                    }
                    if before[k] {
                        let l = choose|l: int|
                            0 <= l < s.len() && #[trigger] collides(s, k, l) && pair_seen(
                                k,
                                l,
                                i as int,
                                j as int,
                            );
                        assert(pair_seen(k, l, i as int, j + 1));
                    }
                }
            }
            j = j + 1;
        }
        proof {
            assert forall|k: int| 0 <= k < n implies #[trigger] marks@[k] == marked_before(
                s,
                k,
                i + 1,
                i + 2,
            ) by {
                if marked_before(s, k, i as int, n as int) {
                    let l = choose|l: int|
                        0 <= l < s.len() && #[trigger] collides(s, k, l) && pair_seen(
                            k,
                            l,
                            i as int,
                            n as int,
                        );
                    assert(pair_seen(k, l, i + 1, i + 2));
                }
                if marked_before(s, k, i + 1, i + 2) {
                    let l = choose|l: int|
                        0 <= l < s.len() && #[trigger] collides(s, k, l) && pair_seen(
                            k,
                            l,
                            i + 1,
                            i + 2,
                        );
                    assert(pair_seen(k, l, i as int, n as int));
                }
            }
        }
        i = i + 1;
    }
    proof {
        assert forall|k: int| 0 <= k < n implies #[trigger] marks@[k] == in_collision(s, k) by {
            if in_collision(s, k) {
                let l = choose|l: int| 0 <= l < s.len() && #[trigger] collides(s, k, l);
                assert(pair_seen(k, l, n as int, n + 1));
            }
        }
        assert(marks@ =~= Seq::new(s.len(), |k: int| in_collision(s, k)));
    }
    let ghost old_world = *world;
    remove_marked(&mut world.bodies, &marks);
    proof {
        keep_wf(s, marks@, old_world.next_id as int, old_world.planet.id);
        keep_placed(s, marks@);
    }
}

/// The satellite after one tick of the primary's gravity. Gravity acts on
/// satellites only, and not within one pixel of the primary's centre.
pub open spec fn gravity_on(planet: Body, b: Body, dt: int) -> Body {
    let d2 = body_dist2(planet, b);
    if b.is_asteroid() && d2 >= MIN_GRAVITY_DIST2 {
        let a = accel(planet.mass.mass as int, b.mass.mass as int, d2);
        let d = floor_sqrt(d2);
        Body {
            velocity: Velocity {
                x: (b.velocity.x + pull(a, planet.x - b.x, dt, d)) as i64,
                y: (b.velocity.y + pull(a, planet.y - b.y, dt, d)) as i64,
            },
            ..b
        }
    } else {
        b
    }
}

/// The change of velocity that one tick of gravity gives the body, along x
/// and along y: the acceleration's share on each axis over `dt`, for a
/// satellite at least one pixel from the primary's centre; none otherwise.
pub open spec fn gravity_change(planet: Body, b: Body, dt: int) -> (int, int) {
    let d2 = body_dist2(planet, b);
    if b.is_asteroid() && d2 >= MIN_GRAVITY_DIST2 {
        let a = accel(planet.mass.mass as int, b.mass.mass as int, d2);
        let d = floor_sqrt(d2);
        (pull(a, planet.x - b.x, dt, d), pull(a, planet.y - b.y, dt, d))
    } else {
        (0, 0)
    }
}

/// Under the limits of a tick, `gravity_on` adds `gravity_change` to the
/// velocity exactly, and the change is at most the largest acceleration over
/// `dt` on each axis.
pub proof fn lemma_gravity_on_exact(planet: Body, b: Body, dt: int)
    requires
        planet.mass.mass == PLANET_MASS,
        abs_le(planet.x as int, REGION_LIMIT as int),
        abs_le(planet.y as int, REGION_LIMIT as int),
        body_fits(b, COORD_LIMIT as int),
        0 < b.mass.mass <= MASS_LIMIT,
        0 <= dt <= MAX_DT,
    ensures
        gravity_on(planet, b, dt).velocity.x == b.velocity.x + gravity_change(planet, b, dt).0,
        gravity_on(planet, b, dt).velocity.y == b.velocity.y + gravity_change(planet, b, dt).1,
        abs_le(gravity_change(planet, b, dt).0, 12_673_000 * dt),
        abs_le(gravity_change(planet, b, dt).1, 12_673_000 * dt),
{
    let d2 = body_dist2(planet, b);
    if b.is_asteroid() && d2 >= MIN_GRAVITY_DIST2 {
        let dx = planet.x - b.x;
        let dy = planet.y - b.y;
        let a = accel(planet.mass.mass as int, b.mass.mass as int, d2);
        let d = floor_sqrt(d2);
        crate::physics::lemma_floor_sqrt_exists(d2);
        lemma_acceleration_independent_of_mass(
            PLANET_MASS as int,
            b.mass.mass as int,
            b.mass.mass as int,
            d2,
        );
        vstd::arithmetic::div_mod::lemma_div_is_ordered_by_denominator(
            G_NUM * PLANET_MASS,
            G_DEN * MIN_GRAVITY_DIST2,
            G_DEN * d2,
        );
        vstd::arithmetic::div_mod::lemma_fundamental_div_mod_converse(
            G_NUM * PLANET_MASS,
            G_DEN * MIN_GRAVITY_DIST2,
            12_673_000,
            0,
        );
        assert(0 <= a <= 12_673_000);
        if d == 0 {
            assert((d + 1) * (d + 1) == 1) by (nonlinear_arith)
                requires
                    d == 0,
            ;
        }
        assert(dx * dx <= d2 && dy * dy <= d2) by (nonlinear_arith)
            requires
                d2 == dx * dx + dy * dy,
        ;
        lemma_axis_within(dx, d2, d);
        lemma_axis_within(dy, d2, d);
        crate::physics::lemma_pull_points_toward_primary(a, dx, dt, d);
        crate::physics::lemma_pull_points_toward_primary(a, dy, dt, d);
        assert(a * dt <= 12_673_000 * dt) by (nonlinear_arith)
            requires
                a <= 12_673_000,
                0 <= dt,
        ;
        assert(12_673_000 * dt <= 12_673_000 * 60_000) by (nonlinear_arith)
            requires
                dt <= 60_000,
        ;
    }
}

proof fn lemma_axis_within(delta: int, d2: int, d: int)
    requires
        delta * delta <= d2,
        d2 < (d + 1) * (d + 1),
        0 <= d,
    ensures
        -d <= delta <= d,
{
    if delta > d {
        assert((d + 1) * (d + 1) <= delta * delta) by (nonlinear_arith)
            requires
                delta >= d + 1,
                d >= 0,
        ;
    }
    if delta < -d {
        assert((d + 1) * (d + 1) <= delta * delta) by (nonlinear_arith)
            requires
                -delta >= d + 1,
                d >= 0,
        ;
    }
}

/// One body under one tick of gravity.
fn pull_body(planet: &Body, b: Body, dt: u64) -> (r: Body)
    requires
        planet.kind is Planet,
        planet.mass.mass == PLANET_MASS,
        abs_le(planet.x as int, REGION_LIMIT as int),
        abs_le(planet.y as int, REGION_LIMIT as int),
        body_fits(b, COORD_LIMIT as int),
        0 < b.mass.mass <= MASS_LIMIT,
        dt <= MAX_DT,
    ensures
        r == gravity_on(*planet, b, dt as int),
        body_fits(r, 2 * COORD_LIMIT),
{
    if !matches!(b.kind, Kind::Asteroid { .. }) {
        return b;
    }
    let dx: i64 = planet.x - b.x;
    let dy: i64 = planet.y - b.y;
    proof {
        assert(dx * dx <= 0x200_0000_0000 * 0x200_0000_0000int) by (nonlinear_arith)
            requires
                -0x200_0000_0000int <= dx <= 0x200_0000_0000int,
        ;
        assert(dy * dy <= 0x200_0000_0000 * 0x200_0000_0000int) by (nonlinear_arith)
            requires
                -0x200_0000_0000int <= dy <= 0x200_0000_0000int,
        ;
        assert(0 <= dx * dx) by (nonlinear_arith);
        assert(0 <= dy * dy) by (nonlinear_arith);
    }
    let d2: u128 = (dx as i128 * dx as i128 + dy as i128 * dy as i128) as u128;
    assert(d2 == body_dist2(*planet, b));
    if d2 < MIN_GRAVITY_DIST2 {
        return b;
    }
    let a = acceleration(planet.mass.mass, b.mass.mass, d2);
    let d = isqrt(d2);
    proof {
        lemma_acceleration_independent_of_mass(
            PLANET_MASS as int,
            b.mass.mass as int,
            b.mass.mass as int,
            d2 as int,
        );
        vstd::arithmetic::div_mod::lemma_div_is_ordered_by_denominator(
            G_NUM * PLANET_MASS,
            G_DEN * MIN_GRAVITY_DIST2,
            G_DEN * d2,
        );
        vstd::arithmetic::div_mod::lemma_fundamental_div_mod_converse(
            G_NUM * PLANET_MASS,
            G_DEN * MIN_GRAVITY_DIST2,
            12_673_000,
            0,
        );
        if d == 0 {
            assert((d + 1) * (d + 1) == 1) by (nonlinear_arith)
                requires
                    d == 0,
            ;
        }
        assert(a <= 12_673_000);
        assert(a * dt <= 12_673_000 * 60_000) by (nonlinear_arith)
            requires
                a <= 12_673_000,
                dt <= 60_000,
                0 <= a,
        ;
        lemma_axis_within(dx as int, d2 as int, d as int);
        lemma_axis_within(dy as int, d2 as int, d as int);
    }
    let px = axis_pull(a, dx, dt, d);
    let py = axis_pull(a, dy, dt, d);
    Body { velocity: Velocity { x: b.velocity.x + px, y: b.velocity.y + py }, ..b }
}

/// Accelerate every satellite toward the primary over `dt` milliseconds.
pub fn gravity(world: &mut World, dt: u64)
    requires
        old(world).wf(),
        old(world).fits(COORD_LIMIT as int),
        dt <= MAX_DT,
    ensures
        final(world).wf(),
        final(world).fits(2 * COORD_LIMIT),
        final(world).same_frame(*old(world)),
        final(world).bodies@ == Seq::new(
            old(world).bodies@.len(),
            |i: int| gravity_on(old(world).planet, old(world).bodies@[i], dt as int),
        ),
        forall|i: int|
            0 <= i < old(world).bodies@.len() ==> {
                &&& #[trigger] final(world).bodies@[i].velocity.x == old(world).bodies@[i].velocity.x
                    + gravity_change(old(world).planet, old(world).bodies@[i], dt as int).0
                &&& final(world).bodies@[i].velocity.y == old(world).bodies@[i].velocity.y
                    + gravity_change(old(world).planet, old(world).bodies@[i], dt as int).1
            },
{
    let ghost s = world.bodies@;
    let ghost w0 = *world;
    let mut i: usize = 0;
    while i < world.bodies.len()
        invariant
            world.same_frame(w0),
            w0.wf(),
            w0.fits(COORD_LIMIT as int),
            dt <= MAX_DT,
            s == w0.bodies@,
            world.bodies@.len() == s.len(),
            0 <= i <= s.len(),
            forall|k: int| 0 <= k < i ==> #[trigger] world.bodies@[k] == gravity_on(w0.planet, s[k], dt as int),
            forall|k: int| i <= k < s.len() ==> #[trigger] world.bodies@[k] == s[k],
            forall|k: int| 0 <= k < i ==> body_fits(#[trigger] world.bodies@[k], 2 * COORD_LIMIT),
        decreases s.len() - i,
    {
        let b = world.bodies[i];
        proof {
            assert(body_fits(s[i as int], COORD_LIMIT as int));
            assert(body_wf(s[i as int], w0.next_id as int));
        }
        let nb = pull_body(&world.planet, b, dt);
        world.bodies.set(i, nb);
        i = i + 1;
    }
    proof {
        assert forall|k: int| 0 <= k < world.bodies@.len() implies body_wf(
            #[trigger] world.bodies@[k],
            world.next_id as int,
        ) by {
            assert(body_wf(s[k], w0.next_id as int));
        }
        assert(world.bodies@ =~= Seq::new(
            s.len(),
            |i: int| gravity_on(w0.planet, s[i], dt as int),
        ));
        assert forall|i: int| 0 <= i < s.len() implies {
            &&& #[trigger] world.bodies@[i].velocity.x == s[i].velocity.x + gravity_change(
                w0.planet,
                s[i],
                dt as int,
            ).0
            &&& world.bodies@[i].velocity.y == s[i].velocity.y + gravity_change(
                w0.planet,
                s[i],
                dt as int,
            ).1
        } by {
            assert(body_fits(s[i], COORD_LIMIT as int));
            assert(body_wf(s[i], w0.next_id as int));
            lemma_gravity_on_exact(w0.planet, s[i], dt as int);
        }
    }
}

/// The body after moving `dt` milliseconds at its velocity.
pub open spec fn moved(b: Body, dt: int) -> Body {
    Body { x: (b.x + b.velocity.x * dt) as i64, y: (b.y + b.velocity.y * dt) as i64, ..b }
}

/// The body after turning `dt` milliseconds at its rotation rate.
pub open spec fn rotated(b: Body, dt: int) -> Body {
    Body { rotation: (b.rotation + b.spin.velocity * dt) as i64, ..b }
}

proof fn lemma_step_bound(p: int, v: int, dt: int)
    requires
        abs_le(p, 2 * COORD_LIMIT),
        abs_le(v, 2 * COORD_LIMIT),
        0 <= dt <= MAX_DT,
    ensures
        abs_le(p + v * dt, PLACE_LIMIT as int),
{
    assert(abs_le(v * dt, 2 * COORD_LIMIT * MAX_DT)) by (nonlinear_arith)
        requires
            abs_le(v, 2 * COORD_LIMIT),
            0 <= dt <= MAX_DT,
    ;
}

/// Move every satellite and moon by its velocity over `dt` milliseconds. The
/// primary never moves.
pub fn update_velocities(world: &mut World, dt: u64)
    requires
        old(world).wf(),
        old(world).fits(2 * COORD_LIMIT),
        dt <= MAX_DT,
    ensures
        final(world).wf(),
        final(world).placed(),
        final(world).same_frame(*old(world)),
        old(world).turns_fit(2 * COORD_LIMIT) ==> final(world).turns_fit(2 * COORD_LIMIT),
        final(world).bodies@ == Seq::new(
            old(world).bodies@.len(),
            |i: int| moved(old(world).bodies@[i], dt as int),
        ),
{
    let ghost s = world.bodies@;
    let ghost w0 = *world;
    let mut i: usize = 0;
    while i < world.bodies.len()
        invariant
            world.same_frame(w0),
            w0.wf(),
            w0.fits(2 * COORD_LIMIT),
            dt <= MAX_DT,
            s == w0.bodies@,
            world.bodies@.len() == s.len(),
            0 <= i <= s.len(),
            forall|k: int| 0 <= k < i ==> #[trigger] world.bodies@[k] == moved(s[k], dt as int),
            forall|k: int| i <= k < s.len() ==> #[trigger] world.bodies@[k] == s[k],
        decreases s.len() - i,
    {
        let b = world.bodies[i];
        proof {
            assert(body_fits(s[i as int], 2 * COORD_LIMIT));
            lemma_step_bound(b.x as int, b.velocity.x as int, dt as int);
            lemma_step_bound(b.y as int, b.velocity.y as int, dt as int);
        }
        let nb = Body {
            x: b.x + b.velocity.x * dt as i64,
            y: b.y + b.velocity.y * dt as i64,
            ..b
        };
        world.bodies.set(i, nb);
        i = i + 1;
    }
    proof {
        assert forall|k: int| 0 <= k < world.bodies@.len() implies body_wf(
            #[trigger] world.bodies@[k],
            world.next_id as int,
        ) by {
            assert(body_wf(s[k], w0.next_id as int));
        }
        assert forall|k: int| 0 <= k < world.bodies@.len() implies body_placed(
            #[trigger] world.bodies@[k],
        ) by {
            assert(body_fits(s[k], 2 * COORD_LIMIT));
            lemma_step_bound(s[k].x as int, s[k].velocity.x as int, dt as int);
            lemma_step_bound(s[k].y as int, s[k].velocity.y as int, dt as int);
        }
        if w0.turns_fit(2 * COORD_LIMIT) {
            assert forall|k: int| 0 <= k < world.bodies@.len() implies body_turn_fits(
                #[trigger] world.bodies@[k],
                2 * COORD_LIMIT,
            ) by {
                assert(body_turn_fits(s[k], 2 * COORD_LIMIT));
            }
        }
        assert(world.bodies@ =~= Seq::new(s.len(), |i: int| moved(s[i], dt as int)));
    }
}

/// Turn the primary, every satellite and every moon by its rotation rate over
/// `dt` milliseconds.
pub fn rotate_body(world: &mut World, dt: u64)
    requires
        old(world).wf(),
        old(world).turns_fit(2 * COORD_LIMIT),
        dt <= MAX_DT,
    ensures
        final(world).wf(),
        final(world).width == old(world).width,
        final(world).height == old(world).height,
        final(world).next_id == old(world).next_id,
        final(world).timer == old(world).timer,
        final(world).planet == rotated(old(world).planet, dt as int),
        old(world).placed() ==> final(world).placed(),
        final(world).bodies@ == Seq::new(
            old(world).bodies@.len(),
            |i: int| rotated(old(world).bodies@[i], dt as int),
        ),
{
    let ghost s = world.bodies@;
    let ghost w0 = *world;
    proof {
        lemma_step_bound(w0.planet.rotation as int, PLANET_ANGULAR_SPEED as int, dt as int);
    }
    world.planet.rotation = world.planet.rotation + PLANET_ANGULAR_SPEED * dt as i64;
    let mut i: usize = 0;
    while i < world.bodies.len()
        invariant
            world.width == w0.width,
            world.height == w0.height,
            world.next_id == w0.next_id,
            world.timer == w0.timer,
            world.planet == rotated(w0.planet, dt as int),
            w0.wf(),
            w0.turns_fit(2 * COORD_LIMIT),
            dt <= MAX_DT,
            s == w0.bodies@,
            world.bodies@.len() == s.len(),
            0 <= i <= s.len(),
            forall|k: int| 0 <= k < i ==> #[trigger] world.bodies@[k] == rotated(s[k], dt as int),
            forall|k: int| i <= k < s.len() ==> #[trigger] world.bodies@[k] == s[k],
        decreases s.len() - i,
    {
        let b = world.bodies[i];
        proof {
            assert(body_turn_fits(s[i as int], 2 * COORD_LIMIT));
            lemma_step_bound(b.rotation as int, b.spin.velocity as int, dt as int);
        }
        let nb = Body { rotation: b.rotation + b.spin.velocity * dt as i64, ..b };
        world.bodies.set(i, nb);
        i = i + 1;
    }
    proof {
        assert forall|k: int| 0 <= k < world.bodies@.len() implies body_wf(
            #[trigger] world.bodies@[k],
            world.next_id as int,
        ) by {
            assert(body_wf(s[k], w0.next_id as int));
        }
        if w0.placed() {
            assert forall|k: int| 0 <= k < world.bodies@.len() implies body_placed(
                #[trigger] world.bodies@[k],
            ) by {
                assert(body_placed(s[k]));
            }
        }
        assert(world.bodies@ =~= Seq::new(s.len(), |i: int| rotated(s[i], dt as int)));
    }
}

/// The satellite lies outside the region by more than its radius.
pub open spec fn off_screen(width: int, height: int, b: Body) -> bool {
    b.is_asteroid() && (b.x < -ASTEROID_RADIUS || b.x > width + ASTEROID_RADIUS || b.y
        < -ASTEROID_RADIUS || b.y > height + ASTEROID_RADIUS)
}

/// Remove every satellite that has left the region by more than its radius.
/// Moons are never removed.
pub fn despawn_off_screen_asteroid(world: &mut World)
    requires
        old(world).wf(),
    ensures
        final(world).wf(),
        final(world).same_frame(*old(world)),
        old(world).placed() ==> final(world).placed(),
        final(world).bodies@ == without_marked(
            old(world).bodies@,
            Seq::new(
                old(world).bodies@.len(),
                |i: int|
                    off_screen(
                        old(world).width as int,
                        old(world).height as int,
                        old(world).bodies@[i],
                    ),
            ),
        ),
{
    let ghost s = world.bodies@;
    let mut marks: Vec<bool> = Vec::new();
    let mut i: usize = 0;
    while i < world.bodies.len()
        invariant
            world.bodies@ == s,
            world.wf(),
            0 <= i <= s.len(),
            marks@ =~= Seq::new(
                i as nat,
                |k: int| off_screen(world.width as int, world.height as int, s[k]),
            ),
        decreases s.len() - i,
    {
        let b = world.bodies[i];
        let out = match b.kind {
            Kind::Asteroid { .. } => {
                b.x < -ASTEROID_RADIUS || b.x > world.width + ASTEROID_RADIUS || b.y
                    < -ASTEROID_RADIUS || b.y > world.height + ASTEROID_RADIUS
            },
            _ => false,
        };
        marks.push(out);
        i = i + 1;
    }
    let ghost old_world = *world;
    remove_marked(&mut world.bodies, &marks);
    proof {
        keep_wf(s, marks@, old_world.next_id as int, old_world.planet.id);
        if old_world.placed() {
            keep_placed(s, marks@);
        }
    }
}


/// The orbit bounds after observing the satellite at distance `dist`.
///
/// The band of tracked distances lies beyond the collision distance and
/// within half the region's extent on both axes, less the satellite's radius.
/// The first observation inside the band sets both bounds; until then the
/// bounds stay unobserved. After that, a distance between the collision
/// distance and `r_min` lowers `r_min`; otherwise a distance beyond `r_min`
/// and `r_max` and within the band raises `r_max`.
pub open spec fn track(o: Orbit, dist: int, width: int, height: int) -> Orbit {
    let floor = PLANET_RADIUS + ASTEROID_RADIUS;
    if o.r_min == 0 {
        if floor < dist && dist < height / 2 - ASTEROID_RADIUS && dist < width / 2
            - ASTEROID_RADIUS {
            Orbit { r_min: dist as i64, r_max: dist as i64 }
        } else {
            o
        }
    } else if floor < dist && dist < o.r_min {
        Orbit { r_min: dist as i64, ..o }
    } else if o.r_min < dist && dist < height / 2 - ASTEROID_RADIUS && o.r_min < dist && dist
        < width / 2 - ASTEROID_RADIUS && dist > o.r_max {
        Orbit { r_max: dist as i64, ..o }
    } else {
        o
    }
}

/// The body after its orbit bounds observe its distance to the primary.
pub open spec fn observed(planet: Body, width: int, height: int, b: Body) -> Body {
    match b.kind {
        Kind::Asteroid { orbit } => Body {
            kind: Kind::Asteroid {
                orbit: track(orbit, floor_sqrt(body_dist2(planet, b)), width, height),
            },
            ..b
        },
        _ => b,
    }
}

/// Update the orbit bounds of one body.
fn track_body(planet: &Body, b: Body, width: i64, height: i64) -> (r: Body)
    requires
        body_placed(*planet),
        body_placed(b),
        0 < width <= REGION_LIMIT,
        0 < height <= REGION_LIMIT,
        b.kind matches Kind::Asteroid { orbit } ==> orbit.wf(),
    ensures
        r == observed(*planet, width as int, height as int, b),
        r.kind matches Kind::Asteroid { orbit } ==> orbit.wf(),
{
    match b.kind {
        Kind::Asteroid { orbit } => {
            let d2 = distance_squared(planet, &b);
            let d = isqrt(d2);
            proof {
                let dx = planet.x - b.x;
                let dy = planet.y - b.y;
                assert(dx * dx <= 0x4000_0000_0000_0000 * 0x4000_0000_0000_0000int) by (nonlinear_arith)
                    requires
                        abs_le(dx, 0x4000_0000_0000_0000int),
                ;
                assert(dy * dy <= 0x4000_0000_0000_0000 * 0x4000_0000_0000_0000int) by (nonlinear_arith)
                    requires
                        abs_le(dy, 0x4000_0000_0000_0000int),
                ;
                if d >= 0x8000_0000_0000_0000 {
                    assert(d * d >= 0x8000_0000_0000_0000 * 0x8000_0000_0000_0000int) by (nonlinear_arith)
                        requires
                            d >= 0x8000_0000_0000_0000int,
                    ;
                }
            }
            let dist = d as i64;
            let floor = PLANET_RADIUS + ASTEROID_RADIUS;
            let next = if orbit.r_min == 0 {
                if dist.between(floor, height / 2 - ASTEROID_RADIUS) && dist < width / 2
                    - ASTEROID_RADIUS {
                    Orbit { r_min: dist, r_max: dist }
                } else {
                    orbit
                }
            } else if dist.between(floor, orbit.r_min) {
                Orbit { r_min: dist, ..orbit }
            } else if dist.between(orbit.r_min, height / 2 - ASTEROID_RADIUS) && dist.between(
                orbit.r_min,
                width / 2 - ASTEROID_RADIUS,
            ) && dist > orbit.r_max {
                Orbit { r_max: dist, ..orbit }
            } else {
                orbit
            };
            Body { kind: Kind::Asteroid { orbit: next }, ..b }
        },
        _ => b,
    }
}

/// Update the orbit bounds of every satellite from its distance to the
/// primary.
pub fn update_orbits(world: &mut World)
    requires
        old(world).wf(),
        old(world).placed(),
    ensures
        final(world).wf(),
        final(world).placed(),
        final(world).same_frame(*old(world)),
        final(world).bodies@ == Seq::new(
            old(world).bodies@.len(),
            |i: int|
                observed(
                    old(world).planet,
                    old(world).width as int,
                    old(world).height as int,
                    old(world).bodies@[i],
                ),
        ),
{
    let ghost s = world.bodies@;
    let ghost w0 = *world;
    let mut i: usize = 0;
    while i < world.bodies.len()
        invariant
            world.same_frame(w0),
            w0.wf(),
            w0.placed(),
            s == w0.bodies@,
            world.bodies@.len() == s.len(),
            0 <= i <= s.len(),
            forall|k: int|
                0 <= k < i ==> #[trigger] world.bodies@[k] == observed(
                    w0.planet,
                    w0.width as int,
                    w0.height as int,
                    s[k],
                ),
            forall|k: int| i <= k < s.len() ==> #[trigger] world.bodies@[k] == s[k],
            forall|k: int| 0 <= k < i ==> body_wf(#[trigger] world.bodies@[k], w0.next_id as int),
        decreases s.len() - i,
    {
        let b = world.bodies[i];
        proof {
            assert(body_placed(s[i as int]));
            assert(body_wf(s[i as int], w0.next_id as int));
        }
        let nb = track_body(&world.planet, b, world.width, world.height);
        world.bodies.set(i, nb);
        i = i + 1;
    }
    proof {
        assert forall|k: int| 0 <= k < world.bodies@.len() implies body_placed(
            #[trigger] world.bodies@[k],
        ) by {
            assert(body_placed(s[k]));
        }
        assert(world.bodies@ =~= Seq::new(
            s.len(),
            |i: int| observed(w0.planet, w0.width as int, w0.height as int, s[i]),
        ));
    }
}

/// The satellite's orbit is elliptical, so it is to become a moon.
pub open spec fn captured(b: Body) -> bool {
    match b.kind {
        Kind::Asteroid { orbit } => orbit.spec_is_elliptical(),
        _ => false,
    }
}

/// How many of the first `n` bodies of `s` are captured.
pub open spec fn captures_before(s: Seq<Body>, n: int) -> int
    decreases n,
{
    if n <= 0 {
        0
    } else {
        captures_before(s, n - 1) + if captured(s[n - 1]) {
            1int
        } else {
            0int
        }
    }
}

/// A moon with the satellite's position, orientation, velocity, rotation
/// rate and mass, under handle `id`.
pub open spec fn moon_of(b: Body, id: int) -> Body {
    Body { id: id as u64, kind: Kind::Moon, ..b }
}

/// Every captured satellite of `s` replaced in place by a moon; the moons
/// take the handles `base`, `base + 1`, ... in order.
pub open spec fn converted(s: Seq<Body>, base: int) -> Seq<Body> {
    Seq::new(
        s.len(),
        |i: int|
            if captured(s[i]) {
                moon_of(s[i], base + captures_before(s, i))
            } else {
                s[i]
            },
    )
}

proof fn lemma_captures_before_bounds(s: Seq<Body>, n: int)
    requires
        0 <= n,
    ensures
        0 <= captures_before(s, n) <= n,
    decreases n,
{
    if n > 0 {
        lemma_captures_before_bounds(s, n - 1);
    }
}

proof fn lemma_captures_before_monotone(s: Seq<Body>, m: int, n: int)
    requires
        0 <= m <= n,
    ensures
        captures_before(s, m) <= captures_before(s, n),
    decreases n - m,
{
    if m < n {
        lemma_captures_before_monotone(s, m, n - 1);
    }
}

/// Replace every satellite whose orbit is elliptical by a moon with a fresh
/// handle and the same kinematic state.
pub fn spawn_moon(world: &mut World)
    requires
        old(world).wf(),
        old(world).next_id < COORD_LIMIT,
        old(world).bodies@.len() < COORD_LIMIT,
    ensures
        final(world).wf(),
        final(world).width == old(world).width,
        final(world).height == old(world).height,
        final(world).planet == old(world).planet,
        final(world).timer == old(world).timer,
        final(world).next_id == old(world).next_id + captures_before(
            old(world).bodies@,
            old(world).bodies@.len() as int,
        ),
        final(world).bodies@ == converted(old(world).bodies@, old(world).next_id as int),
        old(world).placed() ==> final(world).placed(),
{
    let ghost s = world.bodies@;
    let ghost w0 = *world;
    let mut i: usize = 0;
    while i < world.bodies.len()
        invariant
            world.width == w0.width,
            world.height == w0.height,
            world.planet == w0.planet,
            world.timer == w0.timer,
            w0.wf(),
            w0.next_id < COORD_LIMIT,
            s.len() < COORD_LIMIT,
            s == w0.bodies@,
            world.bodies@.len() == s.len(),
            0 <= i <= s.len(),
            world.next_id == w0.next_id + captures_before(s, i as int),
            forall|k: int|
                0 <= k < i ==> #[trigger] world.bodies@[k] == converted(s, w0.next_id as int)[k],
            forall|k: int| i <= k < s.len() ==> #[trigger] world.bodies@[k] == s[k],
        decreases s.len() - i,
    {
        proof {
            lemma_captures_before_bounds(s, i as int);
        }
        let b = world.bodies[i];
        let is_moon = match b.kind {
            Kind::Asteroid { orbit } => orbit.is_elliptical(),
            _ => false,
        };
        if is_moon {
            let nb = Body { id: world.next_id, kind: Kind::Moon, ..b };
            world.bodies.set(i, nb);
            world.next_id = world.next_id + 1;
        }
        i = i + 1;
    }
    proof {
        let total = captures_before(s, s.len() as int);
        assert forall|k: int| 0 <= k < world.bodies@.len() implies body_wf(
            #[trigger] world.bodies@[k],
            world.next_id as int,
        ) by {
            assert(body_wf(s[k], w0.next_id as int));
            lemma_captures_before_bounds(s, k);
            lemma_captures_before_monotone(s, k + 1, s.len() as int);
            assert(world.bodies@[k] == converted(s, w0.next_id as int)[k]);
            if captured(s[k]) {
                assert(captures_before(s, k + 1) == captures_before(s, k) + 1);
            }
        }
        lemma_captures_before_bounds(s, s.len() as int);
        assert(world.planet.id < world.next_id);
        let t = world.bodies@;
        let base = w0.next_id as int;
        assert forall|i: int, j: int|
            0 <= i < t.len() && 0 <= j < t.len() && i < j implies #[trigger] t[i].id
            != #[trigger] t[j].id by {
            assert(t[i] == converted(s, base)[i]);
            assert(t[j] == converted(s, base)[j]);
            assert(body_wf(s[i], base));
            assert(body_wf(s[j], base));
            lemma_captures_before_bounds(s, i);
            lemma_captures_before_bounds(s, j);
            lemma_captures_before_monotone(s, i + 1, j);
            lemma_captures_before_monotone(s, j + 1, s.len() as int);
            lemma_captures_before_monotone(s, i + 1, s.len() as int);
        }
        assert forall|i: int| 0 <= i < t.len() implies #[trigger] t[i].id != world.planet.id by {
            assert(t[i] == converted(s, base)[i]);
            lemma_captures_before_bounds(s, i);
        }
        assert forall|i: int, j: int|
            0 <= i < t.len() && 0 <= j < t.len() && i != j implies #[trigger] t[i].id
            != #[trigger] t[j].id by {
            if j < i {
                assert(t[j].id != t[i].id);
            }
        }
        if w0.placed() {
            assert forall|k: int| 0 <= k < world.bodies@.len() implies body_placed(
                #[trigger] world.bodies@[k],
            ) by {
                assert(body_placed(s[k]));
            }
        }
        assert(world.bodies@ =~= converted(s, w0.next_id as int));
    }
}

/// The random choices that place a new satellite.
#[derive(Clone, Copy, Debug, PartialEq, Eq, Structural)]
pub struct SpawnDraw {
    /// Spawn on the left or right edge; otherwise on the bottom or top edge.
    pub side_edge: bool,
    /// Spawn on the edge at the region's extent rather than the one at 0.
    pub far_edge: bool,
    /// The coordinate along the chosen edge.
    pub along: i64,
    pub velocity: Velocity,
    /// Rotation rate.
    pub spin: i64,
}

/// The draw is one that the spawn stage makes: a coordinate within the
/// extent of the chosen edge, each velocity component in
/// `[-ASTEROID_SPEED, ASTEROID_SPEED)` and a rotation rate of magnitude below
/// `ASTEROID_ANGULAR_SPEED`.
pub open spec fn draw_in_range(width: int, height: int, d: SpawnDraw) -> bool {
    &&& 0 <= d.along < (if d.side_edge {
        height
    } else {
        width
    })
    &&& -ASTEROID_SPEED <= d.velocity.x < ASTEROID_SPEED
    &&& -ASTEROID_SPEED <= d.velocity.y < ASTEROID_SPEED
    &&& -ASTEROID_ANGULAR_SPEED < d.spin < ASTEROID_ANGULAR_SPEED
}

/// The satellite that a draw places, under handle `id`, with unobserved orbit
/// bounds.
pub open spec fn asteroid_from(width: int, height: int, d: SpawnDraw, id: int) -> Body {
    let edge_x = if d.far_edge {
        width
    } else {
        0
    };
    let edge_y = if d.far_edge {
        height
    } else {
        0
    };
    Body {
        id: id as u64,
        kind: Kind::Asteroid { orbit: Orbit { r_min: 0, r_max: 0 } },
        x: (if d.side_edge {
            edge_x
        } else {
            d.along as int
        }) as i64,
        y: (if d.side_edge {
            d.along as int
        } else {
            edge_y
        }) as i64,
        rotation: 0,
        velocity: d.velocity,
        spin: AngularVelocity { velocity: d.spin },
        mass: Mass { mass: ASTEROID_MASS },
    }
}

/// Add the satellite that `draw` describes.
pub fn place_asteroid(world: &mut World, draw: SpawnDraw)
    requires
        old(world).wf(),
        old(world).fits(COORD_LIMIT as int),
        abs_le(draw.along as int, COORD_LIMIT as int),
        abs_le(draw.velocity.x as int, COORD_LIMIT as int),
        abs_le(draw.velocity.y as int, COORD_LIMIT as int),
        abs_le(draw.spin as int, COORD_LIMIT as int),
    ensures
        final(world).wf(),
        final(world).next_id == old(world).next_id + 1,
        final(world).next_id < COORD_LIMIT && final(world).bodies@.len() < COORD_LIMIT
            ==> final(world).fits(COORD_LIMIT as int),
        final(world).width == old(world).width,
        final(world).height == old(world).height,
        final(world).planet == old(world).planet,
        final(world).timer == old(world).timer,
        final(world).bodies@ == old(world).bodies@.push(
            asteroid_from(
                old(world).width as int,
                old(world).height as int,
                draw,
                old(world).next_id as int,
            ),
        ),
{
    let edge_x = if draw.far_edge {
        world.width
    } else {
        0
    };
    let edge_y = if draw.far_edge {
        world.height
    } else {
        0
    };
    let (x, y) = if draw.side_edge {
        (edge_x, draw.along)
    } else {
        (draw.along, edge_y)
    };
    let b = Body {
        id: world.next_id,
        kind: Kind::Asteroid { orbit: Orbit { r_min: 0, r_max: 0 } },
        x,
        y,
        rotation: 0,
        velocity: draw.velocity,
        spin: AngularVelocity { velocity: draw.spin },
        mass: Mass { mass: ASTEROID_MASS },
    };
    let ghost s = world.bodies@;
    world.bodies.push(b);
    world.next_id = world.next_id + 1;
    proof {
        assert forall|k: int| 0 <= k < world.bodies@.len() implies body_wf(
            #[trigger] world.bodies@[k],
            world.next_id as int,
        ) by {
            if k < s.len() {
                assert(world.bodies@[k] == s[k]);
            }
        }
        assert(world.bodies@.len() == s.len() + 1);
        assert forall|k: int| 0 <= k < world.bodies@.len() implies body_fits(
            #[trigger] world.bodies@[k],
            COORD_LIMIT as int,
        ) && body_turn_fits(world.bodies@[k], COORD_LIMIT as int) by {
            if k < s.len() {
                assert(world.bodies@[k] == s[k]);
                assert(body_fits(s[k], COORD_LIMIT as int));
                assert(body_turn_fits(s[k], COORD_LIMIT as int));
            }
        }
    }
}

/// Draw the placement of a new satellite for a region of the given size.
fn draw_spawn(width: i64, height: i64) -> (r: SpawnDraw)
    requires
        0 < width <= REGION_LIMIT,
        0 < height <= REGION_LIMIT,
    ensures
        draw_in_range(width as int, height as int, r),
{
    let side_edge = random_flag();
    let far_edge = random_flag();
    let extent = if side_edge {
        height
    } else {
        width
    };
    let along = random_below(extent as u64) as i64;
    let vx = random_below(2 * ASTEROID_SPEED as u64) as i64 - ASTEROID_SPEED;
    let vy = random_below(2 * ASTEROID_SPEED as u64) as i64 - ASTEROID_SPEED;
    let magnitude = random_below(ASTEROID_ANGULAR_SPEED as u64) as i64;
    let spin = if random_flag() {
        -magnitude
    } else {
        magnitude
    };
    SpawnDraw { side_edge, far_edge, along, velocity: Velocity { x: vx, y: vy }, spin }
}

/// When the spawn timer has just finished, add one satellite at a random
/// place on an edge of the region, with random velocity and rotation rate;
/// otherwise do nothing.
pub fn spawn_asteroid(world: &mut World)
    requires
        old(world).wf(),
        old(world).fits(COORD_LIMIT as int),
    ensures
        final(world).wf(),
        final(world).width == old(world).width,
        final(world).height == old(world).height,
        final(world).planet == old(world).planet,
        final(world).timer == old(world).timer,
        !old(world).timer.finished ==> final(world).bodies@ == old(world).bodies@
            && final(world).next_id == old(world).next_id,
        old(world).timer.finished ==> {
            &&& final(world).next_id == old(world).next_id + 1
            &&& exists|d: SpawnDraw|
                draw_in_range(old(world).width as int, old(world).height as int, d)
                    && final(world).bodies@ == old(world).bodies@.push(
                    #[trigger] asteroid_from(
                        old(world).width as int,
                        old(world).height as int,
                        d,
                        old(world).next_id as int,
                    ),
                )
        },
        final(world).next_id < COORD_LIMIT && final(world).bodies@.len() < COORD_LIMIT
            ==> final(world).fits(COORD_LIMIT as int),
{
    if !world.timer.finished {
        return;
    }
    let draw = draw_spawn(world.width, world.height);
    place_asteroid(world, draw);
}

/// Satellites and moons after gravity, motion and rotation over `dt`.
pub open spec fn after_motion(planet: Body, s: Seq<Body>, dt: int) -> Seq<Body> {
    Seq::new(s.len(), |i: int| rotated(moved(gravity_on(planet, s[i], dt), dt), dt))
}

/// The bodies kept by the collision passes and the boundary pass, in order:
/// satellites that hit the primary, then satellites that hit each other,
/// then satellites out of the region are removed.
pub open spec fn after_removals(planet: Body, width: int, height: int, s: Seq<Body>) -> Seq<
    Body,
> {
    let c1 = without_marked(s, Seq::new(s.len(), |i: int| hits_planet(planet, s[i])));
    let c2 = without_marked(c1, Seq::new(c1.len(), |i: int| in_collision(c1, i)));
    without_marked(c2, Seq::new(c2.len(), |i: int| off_screen(width, height, c2[i])))
}

/// The bodies of a tick, before captured satellites become moons.
pub open spec fn advanced(planet: Body, width: int, height: int, s: Seq<Body>, dt: int) -> Seq<
    Body,
> {
    let r = after_removals(planet, width, height, after_motion(planet, s, dt));
    Seq::new(r.len(), |i: int| observed(planet, width, height, r[i]))
}


/// Run the stages of a tick that follow the spawn: gravity, motion,
/// rotation, the collision passes, the boundary pass, orbit tracking and
/// capture.
pub fn advance(world: &mut World, dt: u64)
    requires
        old(world).wf(),
        old(world).fits(COORD_LIMIT as int),
        dt <= MAX_DT,
    ensures
        final(world).wf(),
        final(world).width == old(world).width,
        final(world).height == old(world).height,
        final(world).timer == old(world).timer,
        final(world).planet == rotated(old(world).planet, dt as int),
        final(world).bodies@ == converted(
            advanced(
                old(world).planet,
                old(world).width as int,
                old(world).height as int,
                old(world).bodies@,
                dt as int,
            ),
            old(world).next_id as int,
        ),
        final(world).next_id == old(world).next_id + captures_before(
            advanced(
                old(world).planet,
                old(world).width as int,
                old(world).height as int,
                old(world).bodies@,
                dt as int,
            ),
            advanced(
                old(world).planet,
                old(world).width as int,
                old(world).height as int,
                old(world).bodies@,
                dt as int,
            ).len() as int,
        ),
{
    let ghost w0 = *world;
    let ghost s0 = world.bodies@;
    gravity(world, dt);
    let ghost s1 = world.bodies@;
    update_velocities(world, dt);
    let ghost s2 = world.bodies@;
    rotate_body(world, dt);
    proof {
        assert(world.bodies@ =~= after_motion(w0.planet, s0, dt as int));
        assert(world.planet.x == w0.planet.x && world.planet.y == w0.planet.y);
    }
    let ghost m = world.bodies@;
    collide_asteroids_with_planet(world);
    let ghost c1 = world.bodies@;
    collide_asteroids(world);
    let ghost c2 = world.bodies@;
    despawn_off_screen_asteroid(world);
    proof {
        let rp = rotated(w0.planet, dt as int);
        assert(Seq::new(m.len(), |i: int| hits_planet(rp, m[i])) =~= Seq::new(
            m.len(),
            |i: int| hits_planet(w0.planet, m[i]),
        ));
        assert(world.bodies@ == after_removals(w0.planet, w0.width as int, w0.height as int, m));
        lemma_without_marked_len(m, Seq::new(m.len(), |i: int| hits_planet(rp, m[i])));
        lemma_without_marked_len(c1, Seq::new(c1.len(), |i: int| in_collision(c1, i)));
        lemma_without_marked_len(
            c2,
            Seq::new(c2.len(), |i: int| off_screen(w0.width as int, w0.height as int, c2[i])),
        );
    }
    let ghost r = world.bodies@;
    update_orbits(world);
    proof {
        let rp = rotated(w0.planet, dt as int);
        assert(world.bodies@ =~= advanced(
            w0.planet,
            w0.width as int,
            w0.height as int,
            s0,
            dt as int,
        )) by {
            assert(Seq::new(r.len(), |i: int| observed(rp, w0.width as int, w0.height as int, r[i]))
                =~= Seq::new(
                r.len(),
                |i: int| observed(w0.planet, w0.width as int, w0.height as int, r[i]),
            ));
        }
    }
    spawn_moon(world);
}

/// One tick of `dt` milliseconds: the spawn timer advances, a satellite is
/// spawned when it has finished, and the remaining stages run as in
/// `advance`.
pub fn step(world: &mut World, dt: u64)
    requires
        old(world).wf(),
        old(world).fits(COORD_LIMIT as int),
        old(world).next_id + 1 < COORD_LIMIT,
        old(world).bodies@.len() + 1 < COORD_LIMIT,
        dt <= MAX_DT,
    ensures
        final(world).wf(),
        final(world).width == old(world).width,
        final(world).height == old(world).height,
        final(world).planet == rotated(old(world).planet, dt as int),
        final(world).timer.duration == old(world).timer.duration,
        final(world).timer.finished == (old(world).timer.elapsed + dt >= old(world).timer.duration),
        final(world).timer.elapsed == (old(world).timer.elapsed + dt) % (
        old(world).timer.duration as int),
        !final(world).timer.finished ==> {
            let a = advanced(
                old(world).planet,
                old(world).width as int,
                old(world).height as int,
                old(world).bodies@,
                dt as int,
            );
            &&& final(world).bodies@ == converted(a, old(world).next_id as int)
            &&& final(world).next_id == old(world).next_id + captures_before(a, a.len() as int)
        },
        final(world).timer.finished ==> exists|d: SpawnDraw|
            {
                let a = advanced(
                    old(world).planet,
                    old(world).width as int,
                    old(world).height as int,
                    old(world).bodies@.push(
                        asteroid_from(
                            old(world).width as int,
                            old(world).height as int,
                            d,
                            old(world).next_id as int,
                        ),
                    ),
                    dt as int,
                );
                &&& #[trigger] draw_in_range(old(world).width as int, old(world).height as int, d)
                &&& final(world).bodies@ == converted(a, old(world).next_id + 1)
                &&& final(world).next_id == old(world).next_id + 1 + captures_before(
                    a,
                    a.len() as int,
                )
            },
{
    let ghost w0 = *world;
    tick_asteroid_spawn_timer(&mut world.timer, dt);
    spawn_asteroid(world);
    let ghost w1 = *world;
    advance(world, dt);
    proof {
        if world.timer.finished {
            let d = choose|d: SpawnDraw|
                draw_in_range(w0.width as int, w0.height as int, d) && w1.bodies@ == w0.bodies@.push(
                    #[trigger] asteroid_from(w0.width as int, w0.height as int, d, w0.next_id as int),
                );
            let a = advanced(w0.planet, w0.width as int, w0.height as int, w1.bodies@, dt as int);
            assert(world.bodies@ == converted(a, w0.next_id + 1));
        }
    }
}

} // verus!
