//! The world and its entity store: the primary, the satellites and moons,
//! the invariants they keep, and the limits under which a tick is computed.
use vstd::prelude::*;

use crate::components::{AngularVelocity, Body, Kind, Mass, Velocity};
use crate::physics::{dist2, MASS_LIMIT};
use crate::resources::AsteroidSpawnTimer;

verus! {

/// Radius of the primary: 50 pixels.
pub const PLANET_RADIUS: i64 = 50_000_000;

/// Mass of the primary, in units of 10^10 kg.
pub const PLANET_MASS: u64 = 190_000_000_000_000_000;

/// Rotation rate of the primary: 0.5 radians per second.
pub const PLANET_ANGULAR_SPEED: i64 = 500;

/// Radius of a satellite or moon: 10 pixels.
pub const ASTEROID_RADIUS: i64 = 10_000_000;

/// Mass of a satellite, in units of 10^10 kg.
pub const ASTEROID_MASS: u64 = 93_000_000_000;

/// Largest speed of a new satellite along an axis: 100 pixels per second.
pub const ASTEROID_SPEED: i64 = 100_000;

/// Largest rotation rate of a new satellite: 20 radians per second.
pub const ASTEROID_ANGULAR_SPEED: i64 = 20_000;

/// Largest width or height of the region: 65536 pixels.
pub const REGION_LIMIT: i64 = 65_536_000_000;

/// Bound on coordinates, velocities, angles and handles under which one tick
/// is computed without overflow.
pub const COORD_LIMIT: i64 = 1_099_511_627_776;

/// Bound on the coordinates of bodies for the distance computations.
pub const PLACE_LIMIT: i64 = 2_305_843_009_213_693_952;

/// Longest tick: one minute.
pub const MAX_DT: u64 = 60_000;

/// Square of the distance at which a satellite touches the primary.
pub const PLANET_HIT_DIST2: u128 = 3_600_000_000_000_000;

/// Square of the distance at which two satellites touch.
pub const ASTEROID_HIT_DIST2: u128 = 400_000_000_000_000;

/// Gravity is not applied closer than one pixel to the primary.
pub const MIN_GRAVITY_DIST2: u128 = 1_000_000_000_000;

/// The simulated world.
pub struct World {
    /// Extent of the region along x.
    pub width: i64,
    /// Extent of the region along y.
    pub height: i64,
    /// The primary, fixed at the centre of the region.
    pub planet: Body,
    /// Satellites and moons; a moon takes the place of the satellite that it
    /// replaces.
    pub bodies: Vec<Body>,
    /// The handle that the next new body receives.
    pub next_id: u64,
    /// Schedules the spawns.
    pub timer: AsteroidSpawnTimer,
}

/// `|v| <= lim`.
pub open spec fn abs_le(v: int, lim: int) -> bool {
    -lim <= v <= lim
}

/// A satellite or moon as the world keeps it.
pub open spec fn body_wf(b: Body, next_id: int) -> bool {
    &&& b.id < next_id
    &&& !(b.kind is Planet)
    &&& 0 < b.mass.mass <= MASS_LIMIT
    &&& (b.kind matches Kind::Asteroid { orbit } ==> orbit.wf())
}

/// The handles of `s` are pairwise distinct and differ from `planet_id`.
pub open spec fn ids_distinct(s: Seq<Body>, planet_id: u64) -> bool {
    &&& forall|i: int, j: int|
        0 <= i < s.len() && 0 <= j < s.len() && i != j ==> #[trigger] s[i].id != #[trigger] s[j].id
    &&& forall|i: int| 0 <= i < s.len() ==> #[trigger] s[i].id != planet_id
}

/// A sequence with the handles of `s`, index by index, keeps them distinct.
pub proof fn lemma_same_ids(s: Seq<Body>, t: Seq<Body>, planet_id: u64)
    requires
        ids_distinct(s, planet_id),
        t.len() == s.len(),
        forall|k: int| 0 <= k < t.len() ==> #[trigger] t[k].id == s[k].id,
    ensures
        ids_distinct(t, planet_id),
{
    assert forall|i: int, j: int|
        0 <= i < t.len() && 0 <= j < t.len() && i != j implies #[trigger] t[i].id != #[trigger] t[j].id by {
        assert(t[i].id == s[i].id && t[j].id == s[j].id);
    }
    assert forall|i: int| 0 <= i < t.len() implies #[trigger] t[i].id != planet_id by {
        assert(t[i].id == s[i].id);
    }
}

/// The body's position and velocity are within `lim` in magnitude.
pub open spec fn body_fits(b: Body, lim: int) -> bool {
    &&& abs_le(b.x as int, lim)
    &&& abs_le(b.y as int, lim)
    &&& abs_le(b.velocity.x as int, lim)
    &&& abs_le(b.velocity.y as int, lim)
}

/// The body's orientation and rotation rate are within `lim` in magnitude.
pub open spec fn body_turn_fits(b: Body, lim: int) -> bool {
    abs_le(b.rotation as int, lim) && abs_le(b.spin.velocity as int, lim)
}

/// The body's position is small enough for distances to be computed.
pub open spec fn body_placed(b: Body) -> bool {
    abs_le(b.x as int, PLACE_LIMIT as int) && abs_le(b.y as int, PLACE_LIMIT as int)
}

pub open spec fn body_dist2(a: Body, b: Body) -> int {
    dist2(a.x as int, a.y as int, b.x as int, b.y as int)
}

/// The primary as the world keeps it.
pub open spec fn planet_of(width: int, height: int, id: u64, rotation: i64) -> Body {
    Body {
        id,
        kind: Kind::Planet,
        x: (width / 2) as i64,
        y: (height / 2) as i64,
        rotation,
        velocity: Velocity { x: 0, y: 0 },
        spin: AngularVelocity { velocity: PLANET_ANGULAR_SPEED },
        mass: Mass { mass: PLANET_MASS },
    }
}

/// The bodies of `s` whose mark in `m` is false, in their order.
pub open spec fn without_marked(s: Seq<Body>, m: Seq<bool>) -> Seq<Body>
    decreases s.len(),
{
    if s.len() == 0 {
        Seq::empty()
    } else {
        let rest = without_marked(s.drop_last(), m);
        if m[s.len() - 1] {
            rest
        } else {
            rest.push(s.last())
        }
    }
}

/// What holds of every body of `s` holds of every body kept.
pub proof fn lemma_without_marked_keeps(s: Seq<Body>, m: Seq<bool>, p: spec_fn(Body) -> bool)
    requires
        forall|j: int| 0 <= j < s.len() ==> #[trigger] p(s[j]),
    ensures
        forall|k: int|
            0 <= k < without_marked(s, m).len() ==> #[trigger] p(without_marked(s, m)[k]),
    decreases s.len(),
{
    if s.len() > 0 {
        let t = s.drop_last();
        assert forall|j: int| 0 <= j < t.len() implies #[trigger] p(t[j]) by {
            assert(t[j] == s[j]);
        }
        lemma_without_marked_keeps(t, m, p);
        let rest = without_marked(t, m);
        let r = without_marked(s, m);
        assert(p(s[s.len() - 1]));
        assert forall|k: int| 0 <= k < r.len() implies #[trigger] p(r[k]) by {
            if k < rest.len() {
                assert(r[k] == rest[k]);
            } else {
                assert(r[k] == s.last());
            }
        }
    }
}

/// Where the `k`-th body kept by `without_marked(s, m)` stands in `s`.
pub open spec fn kept_index(s: Seq<Body>, m: Seq<bool>, k: int) -> int
    decreases s.len(),
{
    if s.len() == 0 {
        0
    } else {
        let rest = without_marked(s.drop_last(), m);
        if !m[s.len() - 1] && k == rest.len() {
            s.len() - 1
        } else {
            kept_index(s.drop_last(), m, k)
        }
    }
}

/// Each body kept by `without_marked(s, m)` is an unmarked body of `s`, and
/// kept bodies keep their order.
pub proof fn lemma_kept_index(s: Seq<Body>, m: Seq<bool>)
    requires
        m.len() >= s.len(),
    ensures
        forall|k: int|
            0 <= k < without_marked(s, m).len() ==> {
                &&& 0 <= #[trigger] kept_index(s, m, k) < s.len()
                &&& !m[kept_index(s, m, k)]
                &&& without_marked(s, m)[k] == s[kept_index(s, m, k)]
            },
        forall|k: int, l: int|
            0 <= k < l < without_marked(s, m).len() ==> #[trigger] kept_index(s, m, k)
                < #[trigger] kept_index(s, m, l),
    decreases s.len(),
{
    if s.len() > 0 {
        let t = s.drop_last();
        lemma_kept_index(t, m);
        lemma_without_marked_len(t, m);
        let rest = without_marked(t, m);
        let r = without_marked(s, m);
        assert forall|k: int| 0 <= k < r.len() implies {
            &&& 0 <= #[trigger] kept_index(s, m, k) < s.len()
            &&& !m[kept_index(s, m, k)]
            &&& r[k] == s[kept_index(s, m, k)]
        } by {
            if k < rest.len() {
                assert(r[k] == rest[k]);
                assert(t[kept_index(t, m, k)] == s[kept_index(t, m, k)]);
            }
        }
        assert forall|k: int, l: int|
            0 <= k < l < r.len() implies #[trigger] kept_index(s, m, k) < #[trigger] kept_index(
            s,
            m,
            l,
        ) by {
            assert(k < rest.len());
            assert(kept_index(s, m, k) == kept_index(t, m, k));
            assert(kept_index(t, m, k) < t.len());
            if l < rest.len() {
                assert(kept_index(s, m, l) == kept_index(t, m, l));
            } else {
                assert(kept_index(s, m, l) == s.len() - 1);
            }
        }
    }
}

pub(crate) proof fn keep_wf(s: Seq<Body>, m: Seq<bool>, next_id: int, planet_id: u64)
    requires
        m.len() == s.len(),
        forall|j: int| 0 <= j < s.len() ==> body_wf(#[trigger] s[j], next_id),
        ids_distinct(s, planet_id),
    ensures
        ids_distinct(without_marked(s, m), planet_id),
        forall|k: int|
            0 <= k < without_marked(s, m).len() ==> body_wf(
                #[trigger] without_marked(s, m)[k],
                next_id,
            ),
{
    let r = without_marked(s, m);
    lemma_kept_index(s, m);
    assert forall|i: int, j: int|
        0 <= i < r.len() && 0 <= j < r.len() && i != j implies #[trigger] r[i].id != #[trigger] r[j].id by {
        if i < j {
            assert(kept_index(s, m, i) < kept_index(s, m, j));
        } else {
            assert(kept_index(s, m, j) < kept_index(s, m, i));
        }
    }
    assert forall|i: int| 0 <= i < r.len() implies #[trigger] r[i].id != planet_id by {
        assert(r[i] == s[kept_index(s, m, i)]);
    }
    let p = |b: Body| body_wf(b, next_id);
    assert forall|j: int| 0 <= j < s.len() implies #[trigger] p(s[j]) by {}
    lemma_without_marked_keeps(s, m, p);
    assert forall|k: int| 0 <= k < without_marked(s, m).len() implies body_wf(
        #[trigger] without_marked(s, m)[k],
        next_id,
    ) by {
        assert(p(without_marked(s, m)[k]));
    }
}

pub(crate) proof fn keep_placed(s: Seq<Body>, m: Seq<bool>)
    requires
        forall|j: int| 0 <= j < s.len() ==> body_placed(#[trigger] s[j]),
    ensures
        forall|k: int| 0 <= k < without_marked(s, m).len() ==> body_placed(
            #[trigger] without_marked(s, m)[k],
        ),
{
    let p = |b: Body| body_placed(b);
    assert forall|j: int| 0 <= j < s.len() implies #[trigger] p(s[j]) by {}
    lemma_without_marked_keeps(s, m, p);
    assert forall|k: int| 0 <= k < without_marked(s, m).len() implies body_placed(
        #[trigger] without_marked(s, m)[k],
    ) by {
        assert(p(without_marked(s, m)[k]));
    }
}

impl World {
    pub open spec fn wf(&self) -> bool {
        &&& 0 < self.width <= REGION_LIMIT
        &&& 0 < self.height <= REGION_LIMIT
        &&& self.planet == planet_of(
            self.width as int,
            self.height as int,
            self.planet.id,
            self.planet.rotation,
        )
        &&& self.planet.id < self.next_id
        &&& ids_distinct(self.bodies@, self.planet.id)
        &&& forall|i: int|
            0 <= i < self.bodies@.len() ==> body_wf(#[trigger] self.bodies@[i], self.next_id as int)
        &&& self.timer.wf()
    }

    /// All numbers of the world are within `lim` in magnitude, and handles
    /// and the count of bodies below `COORD_LIMIT`.
    pub open spec fn fits(&self, lim: int) -> bool {
        &&& self.next_id < COORD_LIMIT
        &&& self.bodies@.len() < COORD_LIMIT
        &&& self.moves_fit(lim)
        &&& self.turns_fit(lim)
    }

    /// Positions and velocities are within `lim` in magnitude.
    pub open spec fn moves_fit(&self, lim: int) -> bool {
        forall|i: int| 0 <= i < self.bodies@.len() ==> body_fits(#[trigger] self.bodies@[i], lim)
    }

    /// Orientations and rotation rates are within `lim` in magnitude.
    pub open spec fn turns_fit(&self, lim: int) -> bool {
        &&& abs_le(self.planet.rotation as int, lim)
        &&& forall|i: int|
            0 <= i < self.bodies@.len() ==> body_turn_fits(#[trigger] self.bodies@[i], lim)
    }

    /// All bodies are placed so that distances can be computed.
    pub open spec fn placed(&self) -> bool {
        forall|i: int| 0 <= i < self.bodies@.len() ==> body_placed(#[trigger] self.bodies@[i])
    }

    /// Exactly the fields other than the bodies are those of `w`.
    pub open spec fn same_frame(&self, w: World) -> bool {
        &&& self.width == w.width
        &&& self.height == w.height
        &&& self.planet == w.planet
        &&& self.next_id == w.next_id
        &&& self.timer == w.timer
    }
}

/// Squared distance between two placed bodies.
pub(crate) fn distance_squared(a: &Body, b: &Body) -> (r: u128)
    requires
        body_placed(*a),
        body_placed(*b),
    ensures
        r == body_dist2(*a, *b),
{
    let dx: i128 = a.x as i128 - b.x as i128;
    let dy: i128 = a.y as i128 - b.y as i128;
    proof {
        assert(dx * dx <= 0x4000_0000_0000_0000 * 0x4000_0000_0000_0000int) by (nonlinear_arith)
            requires
                -0x4000_0000_0000_0000int <= dx <= 0x4000_0000_0000_0000int,
        ;
        assert(dy * dy <= 0x4000_0000_0000_0000 * 0x4000_0000_0000_0000int) by (nonlinear_arith)
            requires
                -0x4000_0000_0000_0000int <= dy <= 0x4000_0000_0000_0000int,
        ;
        assert(0 <= dx * dx) by (nonlinear_arith);
        assert(0 <= dy * dy) by (nonlinear_arith);
    }
    (dx * dx + dy * dy) as u128
}

/// Remove the bodies whose mark is set, keeping the order of the others.
pub(crate) fn remove_marked(bodies: &mut Vec<Body>, marks: &Vec<bool>)
    requires
        marks@.len() == old(bodies)@.len(),
    ensures
        final(bodies)@ == without_marked(old(bodies)@, marks@),
{
    let mut kept: Vec<Body> = Vec::new();
    let mut i: usize = 0;
    while i < bodies.len()
        invariant
            marks@.len() == bodies@.len(),
            0 <= i <= bodies@.len(),
            kept@ == without_marked(bodies@.take(i as int), marks@),
        decreases bodies@.len() - i,
    {
        proof {
            assert(bodies@.take(i as int + 1).drop_last() =~= bodies@.take(i as int));
        }
        if !marks[i] {
            kept.push(bodies[i]);
        }
        i = i + 1;
    }
    proof {
        assert(bodies@.take(i as int) =~= bodies@);
    }
    *bodies = kept;
}

/// Removal never adds bodies.
pub proof fn lemma_without_marked_len(s: Seq<Body>, m: Seq<bool>)
    ensures
        without_marked(s, m).len() <= s.len(),
    decreases s.len(),
{
    if s.len() > 0 {
        lemma_without_marked_len(s.drop_last(), m);
    }
}

impl World {
    /// Whether the numbers of the world are small enough for `step`.
    pub fn can_step(&self) -> (r: bool)
        ensures
            r == (self.fits(COORD_LIMIT as int) && self.next_id + 1 < COORD_LIMIT
                && self.bodies@.len() + 1 < COORD_LIMIT),
    {
        if !((self.next_id as u128) < (COORD_LIMIT - 1) as u128 && (self.bodies.len() as u128) < (
            COORD_LIMIT - 1) as u128) {
            return false;
        }
        if !(-COORD_LIMIT <= self.planet.rotation && self.planet.rotation <= COORD_LIMIT) {
            return false;
        }
        let mut i: usize = 0;
        while i < self.bodies.len()
            invariant
                0 <= i <= self.bodies@.len(),
                forall|k: int|
                    0 <= k < i ==> body_fits(#[trigger] self.bodies@[k], COORD_LIMIT as int)
                        && body_turn_fits(self.bodies@[k], COORD_LIMIT as int),
            decreases self.bodies@.len() - i,
        {
            let b = &self.bodies[i];
            let ok = -COORD_LIMIT <= b.x && b.x <= COORD_LIMIT && -COORD_LIMIT <= b.y && b.y
                <= COORD_LIMIT && -COORD_LIMIT <= b.velocity.x && b.velocity.x <= COORD_LIMIT
                && -COORD_LIMIT <= b.velocity.y && b.velocity.y <= COORD_LIMIT && -COORD_LIMIT
                <= b.rotation && b.rotation <= COORD_LIMIT && -COORD_LIMIT <= b.spin.velocity
                && b.spin.velocity <= COORD_LIMIT;
            if !ok {
                return false;
            }
            i = i + 1;
        }
        true
    }

    /// Number of satellites in the world.
    pub fn asteroid_count(&self) -> (r: usize)
        ensures
            r == count_kind(self.bodies@, self.bodies@.len() as int, false),
    {
        self.count(false)
    }

    /// Number of moons in the world.
    pub fn moon_count(&self) -> (r: usize)
        ensures
            r == count_kind(self.bodies@, self.bodies@.len() as int, true),
    {
        self.count(true)
    }

    fn count(&self, moons: bool) -> (r: usize)
        ensures
            r == count_kind(self.bodies@, self.bodies@.len() as int, moons),
    {
        let mut n: usize = 0;
        let mut i: usize = 0;
        while i < self.bodies.len()
            invariant
                0 <= i <= self.bodies@.len(),
                n == count_kind(self.bodies@, i as int, moons),
                n <= i,
            decreases self.bodies@.len() - i,
        {
            let hit = match self.bodies[i].kind {
                Kind::Asteroid { .. } => !moons,
                Kind::Moon => moons,
                Kind::Planet => false,
            };
            if hit {
                n = n + 1;
            }
            i = i + 1;
        }
        n
    }
}

/// How many of the first `n` bodies of `s` are moons (`moons`) or
/// satellites (`!moons`).
pub open spec fn count_kind(s: Seq<Body>, n: int, moons: bool) -> int
    decreases n,
{
    if n <= 0 {
        0
    } else {
        count_kind(s, n - 1, moons) + if (moons && s[n - 1].kind is Moon) || (!moons
            && s[n - 1].is_asteroid()) {
            1int
        } else {
            0int
        }
    }
}

} // verus!
