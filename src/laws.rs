//! Properties of gravity, the removal passes, orbit tracking and capture.
use vstd::prelude::*;

use crate::components::{Body, Orbit};
use crate::physics::lemma_acceleration_independent_of_mass;
use crate::systems::{
    captured, captures_before, collides, converted, gravity_change, hits_planet, in_collision,
    off_screen, track,
};
use crate::world::{
    count_kind, kept_index, lemma_kept_index, without_marked, ASTEROID_RADIUS, PLANET_RADIUS,
};

verus! {

/// Removing with no mark set keeps every body.
proof fn lemma_without_none(s: Seq<Body>, m: Seq<bool>)
    requires
        m.len() >= s.len(),
        forall|i: int| 0 <= i < s.len() ==> !m[i],
    ensures
        without_marked(s, m) == s,
    decreases s.len(),
{
    if s.len() > 0 {
        lemma_without_none(s.drop_last(), m);
        assert(without_marked(s.drop_last(), m).push(s.last()) =~= s);
    }
}

/// The pass that removes satellites hitting the primary is idempotent: a
/// second pass over its result removes nothing.
pub proof fn lemma_planet_pass_idempotent(planet: Body, s: Seq<Body>)
    ensures
        ({
            let r = without_marked(s, Seq::new(s.len(), |i: int| hits_planet(planet, s[i])));
            without_marked(r, Seq::new(r.len(), |i: int| hits_planet(planet, r[i]))) == r
        }),
{
    let m = Seq::new(s.len(), |i: int| hits_planet(planet, s[i]));
    let r = without_marked(s, m);
    lemma_kept_index(s, m);
    let m2 = Seq::new(r.len(), |i: int| hits_planet(planet, r[i]));
    assert forall|i: int| 0 <= i < r.len() implies !m2[i] by {
        let j = kept_index(s, m, i);
        assert(r[i] == s[j]);
    }
    lemma_without_none(r, m2);
}

/// The boundary pass is idempotent: a second pass over its result removes
/// nothing.
pub proof fn lemma_boundary_pass_idempotent(width: int, height: int, s: Seq<Body>)
    ensures
        ({
            let r = without_marked(s, Seq::new(s.len(), |i: int| off_screen(width, height, s[i])));
            without_marked(r, Seq::new(r.len(), |i: int| off_screen(width, height, r[i]))) == r
        }),
{
    let m = Seq::new(s.len(), |i: int| off_screen(width, height, s[i]));
    let r = without_marked(s, m);
    lemma_kept_index(s, m);
    let m2 = Seq::new(r.len(), |i: int| off_screen(width, height, r[i]));
    assert forall|i: int| 0 <= i < r.len() implies !m2[i] by {
        let j = kept_index(s, m, i);
        assert(r[i] == s[j]);
    }
    lemma_without_none(r, m2);
}

/// The pass that removes satellites hitting each other is idempotent: no two
/// satellites that it keeps intersect, so a second pass removes nothing.
pub proof fn lemma_pair_pass_idempotent(s: Seq<Body>)
    ensures
        ({
            let r = without_marked(s, Seq::new(s.len(), |i: int| in_collision(s, i)));
            without_marked(r, Seq::new(r.len(), |i: int| in_collision(r, i))) == r
        }),
{
    let m = Seq::new(s.len(), |i: int| in_collision(s, i));
    let r = without_marked(s, m);
    lemma_kept_index(s, m);
    let m2 = Seq::new(r.len(), |i: int| in_collision(r, i));
    assert forall|i: int| 0 <= i < r.len() implies !m2[i] by {
        if in_collision(r, i) {
            let l = choose|l: int| 0 <= l < r.len() && #[trigger] collides(r, i, l);
            let ji = kept_index(s, m, i);
            let jl = kept_index(s, m, l);
            if i < l {
                assert(ji < jl);
            } else {
                assert(jl < ji);
            }
            assert(collides(s, ji, jl));
            assert(in_collision(s, ji));
        }
    }
    lemma_without_none(r, m2);
}

/// Orbit tracking keeps the bounds ordered, and once a distance has been
/// observed `r_min` only decreases and `r_max` only increases.
pub proof fn lemma_track_monotone(o: Orbit, dist: int, width: int, height: int)
    requires
        o.wf(),
        0 <= dist <= i64::MAX,
    ensures
        track(o, dist, width, height).wf(),
        o.r_min > 0 ==> track(o, dist, width, height).r_min <= o.r_min,
        o.r_min > 0 ==> track(o, dist, width, height).r_max >= o.r_max,
        o.r_min == 0 && !(PLANET_RADIUS + ASTEROID_RADIUS < dist && dist < height / 2
            - ASTEROID_RADIUS && dist < width / 2 - ASTEROID_RADIUS) ==> track(
            o,
            dist,
            width,
            height,
        ) == o,
{
}

/// Two satellites at the same place receive the same change of velocity from
/// gravity, in magnitude and direction, whatever their masses.
pub proof fn lemma_gravity_change_independent_of_mass(planet: Body, b1: Body, b2: Body, dt: int)
    requires
        b1.is_asteroid(),
        b2.is_asteroid(),
        b1.x == b2.x,
        b1.y == b2.y,
        0 < planet.mass.mass,
        0 < b1.mass.mass,
        0 < b2.mass.mass,
    ensures
        gravity_change(planet, b1, dt) == gravity_change(planet, b2, dt),
{
    let d2 = crate::world::body_dist2(planet, b1);
    if d2 >= crate::world::MIN_GRAVITY_DIST2 {
        lemma_acceleration_independent_of_mass(
            planet.mass.mass as int,
            b1.mass.mass as int,
            b2.mass.mass as int,
            d2,
        );
    }
}

/// An observed circular orbit that then sees a larger distance inside the
/// band raises `r_max` and becomes elliptical; one that sees a smaller
/// distance beyond the collision distance lowers `r_min` and becomes
/// elliptical.
pub proof fn lemma_track_becomes_elliptical(a: int, dist: int, width: int, height: int)
    requires
        PLANET_RADIUS + ASTEROID_RADIUS < a <= i64::MAX,
        0 <= dist <= i64::MAX,
    ensures
        a < dist && dist < height / 2 - ASTEROID_RADIUS && dist < width / 2 - ASTEROID_RADIUS
            ==> {
            let o = track(Orbit { r_min: a as i64, r_max: a as i64 }, dist, width, height);
            o == Orbit { r_min: a as i64, r_max: dist as i64 } && o.spec_is_elliptical()
        },
        PLANET_RADIUS + ASTEROID_RADIUS < dist < a ==> {
            let o = track(Orbit { r_min: a as i64, r_max: a as i64 }, dist, width, height);
            o == Orbit { r_min: dist as i64, r_max: a as i64 } && o.spec_is_elliptical()
        },
{
}

/// Capture turns each captured satellite into exactly one moon: the number
/// of satellites falls, and the number of moons rises, by the number
/// captured.
pub proof fn lemma_capture_counts(s: Seq<Body>, base: int, n: int)
    requires
        0 <= n <= s.len(),
    ensures
        count_kind(converted(s, base), n, false) == count_kind(s, n, false) - captures_before(
            s,
            n,
        ),
        count_kind(converted(s, base), n, true) == count_kind(s, n, true) + captures_before(
            s,
            n,
        ),
    decreases n,
{
    if n > 0 {
        lemma_capture_counts(s, base, n - 1);
        let b = s[n - 1];
        assert(captured(b) ==> b.is_asteroid());
    }
}

} // verus!
